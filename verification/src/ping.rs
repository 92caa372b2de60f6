//! The periodic ping that keeps the proxy server alive: the request, how its
//! reply is judged, and what the pinging loop does after each round.
use vstd::prelude::*;
use vstd::string::StringExecFns;

verus! {

/// The URL of the server's ping endpoint.
pub open spec fn ping_url_spec(ip: Seq<char>) -> Seq<char> {
    "http://"@ + ip + ":24816/ping"@
}

/// The URL of the ping endpoint of the server at `ip`.
pub fn ping_url(ip: &str) -> (r: String)
    ensures
        r@ == ping_url_spec(ip@),
{
    let mut r = String::from_str("http://");
    r.append(ip);
    r.append(":24816/ping");
    r
}

/// Whether a ping reply shows a live server: status `200` and the body
/// `pong!` (`None` when the body could not be read).
pub fn ping_reply_ok(status: u16, body: Option<&str>) -> (r: bool)
    ensures
        r == (status == 200 && (body matches Some(b) && b@ == "pong!"@)),
{
    if status != 200 {
        return false;
    }
    match body {
        Some(b) => crate::util::str_eq(b, "pong!"),
        None => false,
    }
}


/// What a ping round reports.
#[derive(Clone, Copy, Debug, PartialEq, Eq, Structural)]
pub enum PingReport {
    /// The loop was cancelled; nothing is reported.
    Silent,
    /// The server answered.
    Alive,
    /// The server did not answer.
    Lost,
}

/// After a ping round: whether the loop goes on, and what it reports. A
/// cancelled loop stops silently; a failed ping stops the loop when
/// `stop_on_failure` (the desktop app) and is only reported otherwise (the
/// mobile VPN).
pub fn after_ping(cancelled: bool, success: bool, stop_on_failure: bool) -> (r: (bool, PingReport))
    ensures
        cancelled ==> r == (false, PingReport::Silent),
        !cancelled && success ==> r == (true, PingReport::Alive),
        !cancelled && !success ==> r == (!stop_on_failure, PingReport::Lost),
{
    if cancelled {
        (false, PingReport::Silent)
    } else if success {
        (true, PingReport::Alive)
    } else {
        (!stop_on_failure, PingReport::Lost)
    }
}

} // verus!
