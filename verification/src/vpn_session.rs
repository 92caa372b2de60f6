//! The VPN service of the mobile app: what it does with each connection its
//! IP stack accepts, and the slot that lets only one VPN run at a time.
use vstd::prelude::*;

verus! {

/// The port of DNS, whose UDP flows the virtual DNS answers.
pub const DNS_PORT: u16 = 53;

/// A connection that the VPN's IP stack accepted.
pub enum AcceptedStream {
    /// A TCP connection to port `port` of the address written `ip_text`;
    /// `resolved` is the domain that the virtual DNS gave that address, if any.
    Tcp { ip_text: String, port: u16, resolved: Option<String> },
    /// A UDP flow to port `port`.
    Udp { port: u16 },
    /// A packet of a transport protocol the stack does not handle.
    UnknownTransport,
    /// A packet of a network protocol the stack does not handle.
    UnknownNetwork,
}

/// What the VPN does with an accepted connection.
pub enum StreamPlan {
    /// Tunnel it through the proxy server to `host:port`.
    Tunnel { host: String, port: u16 },
    /// Answer its DNS queries from the virtual DNS.
    VirtualDns,
    /// Relay its datagrams directly to their destination.
    RelayUdp,
    /// Log it and drop it.
    Ignore,
}

/// Decides what to do with a connection: TCP goes through the tunnel, to the
/// domain the virtual DNS resolved its address to, or else to the address
/// itself; UDP to the DNS port goes to the virtual DNS and other UDP is
/// relayed directly; anything else is dropped.
pub fn plan_stream(s: AcceptedStream) -> (r: StreamPlan)
    ensures
        match s {
            AcceptedStream::Tcp { ip_text, port, resolved } => r matches StreamPlan::Tunnel {
                host,
                port: p,
            } && p == port && host@ == match resolved {
                Some(d) => d@,
                None => ip_text@,
            },
            AcceptedStream::Udp { port } => if port == DNS_PORT {
                r is VirtualDns
            } else {
                r is RelayUdp
            },
            _ => r is Ignore,
        },
{
    match s {
        AcceptedStream::Tcp { ip_text, port, resolved } => {
            let host = match resolved {
                Some(d) => d,
                None => ip_text,
            };
            StreamPlan::Tunnel { host, port }
        },
        AcceptedStream::Udp { port } => {
            if port == DNS_PORT {
                StreamPlan::VirtualDns
            } else {
                StreamPlan::RelayUdp
            }
        },
        AcceptedStream::UnknownTransport => StreamPlan::Ignore,
        AcceptedStream::UnknownNetwork => StreamPlan::Ignore,
    }
}

/// Starting a VPN with quit handle `handle` on a slot holding `slot`:
/// whether it is accepted, and what the slot then holds. A start is refused,
/// and the slot kept, while another VPN holds it.
pub open spec fn start_transition<T>(slot: Option<T>, handle: T) -> (bool, Option<T>) {
    match slot {
        Some(h) => (false, Some(h)),
        None => (true, Some(handle)),
    }
}

/// Stopping on a slot holding `slot`: the handle taken out, to be
/// cancelled, and what the slot then holds (nothing).
pub open spec fn stop_transition<T>(slot: Option<T>) -> (Option<T>, Option<T>) {
    (slot, None)
}

/// The slot that holds the quit handle of the running VPN.
pub struct QuitSlot<T> {
    handle: Option<T>,
}

impl<T> View for QuitSlot<T> {
    type V = Option<T>;

    closed spec fn view(&self) -> Option<T> {
        self.handle
    }
}

impl<T> QuitSlot<T> {
    /// An empty slot: no VPN is running.
    pub fn new() -> (r: Self)
        ensures
            r@ is None,
    {
        QuitSlot { handle: None }
    }

    /// Starts a VPN with quit handle `handle`, unless another holds the slot.
    pub fn try_start(&mut self, handle: T) -> (r: bool)
        ensures
            (r, final(self)@) == start_transition(old(self)@, handle),
    {
        if self.handle.is_some() {
            false
        } else {
            self.handle = Some(handle);
            true
        }
    }

    /// Stops the running VPN: gives back its quit handle and empties the slot.
    pub fn stop(&mut self) -> (r: Option<T>)
        ensures
            (r, final(self)@) == stop_transition(old(self)@),
    {
        self.handle.take()
    }
}

/// The result code of the VPN's stop entry point: `0` when a running VPN was
/// stopped, `-1` when none was running.
pub fn stop_code<T>(stopped: &Option<T>) -> (r: i32)
    ensures
        r == (if stopped is Some { 0i32 } else { -1i32 }),
{
    match stopped {
        Some(_) => 0,
        None => -1,
    }
}

/// The result code of the VPN's run entry point. In order: `-1` when the
/// server address or token cannot be read; `-2` when the slot of the running
/// VPN cannot be locked; `-1` when another VPN holds the slot (the start is
/// refused); `-3` when no runtime could be made; otherwise the code the VPN
/// finished with (`finished`), or `-1` when its task did not finish normally.
pub open spec fn run_code_spec(
    args_read: bool,
    slot_locked: bool,
    start_accepted: bool,
    runtime_made: bool,
    finished: Option<i32>,
) -> i32 {
    if !args_read {
        -1i32
    } else if !slot_locked {
        -2i32
    } else if !start_accepted {
        -1i32
    } else if !runtime_made {
        -3i32
    } else {
        match finished {
            Some(n) => n,
            None => -1i32,
        }
    }
}

/// The result code of the VPN's run entry point, from what happened in
/// each of its stages (see `run_code_spec`).
pub fn run_code(
    args_read: bool,
    slot_locked: bool,
    start_accepted: bool,
    runtime_made: bool,
    finished: Option<i32>,
) -> (r: i32)
    ensures
        r == run_code_spec(args_read, slot_locked, start_accepted, runtime_made, finished),
{
    if !args_read {
        -1
    } else if !slot_locked {
        -2
    } else if !start_accepted {
        -1
    } else if !runtime_made {
        -3
    } else {
        match finished {
            Some(n) => n,
            None => -1,
        }
    }
}

/// A second run while a VPN holds the slot is refused with `-1`, and the
/// slot keeps the running VPN's handle.
pub proof fn lemma_second_run_refused<T>(running: T, second: T, runtime_made: bool, finished: Option<i32>)
    ensures
        start_transition(Some(running), second) == (false, Some(running)),
        run_code_spec(true, true, start_transition(Some(running), second).0, runtime_made, finished) == -1,
{
}

/// Only one VPN runs at a time: on an empty slot a start is accepted; while
/// that VPN holds the slot a second start is refused and leaves it in place;
/// stopping hands back its handle and empties the slot, after which a new
/// start is accepted again.
pub proof fn lemma_one_vpn_at_a_time<T>(first: T, second: T)
    ensures
        start_transition(None, first) == (true, Some(first)),
        start_transition(Some(first), second) == (false, Some(first)),
        stop_transition(Some(first)) == (Some(first), None::<T>),
        start_transition(stop_transition(Some(first)).1, second) == (true, Some(second)),
        stop_transition(None::<T>) == (None::<T>, None::<T>),
{
}

} // verus!
