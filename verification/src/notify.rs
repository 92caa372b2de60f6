//! The desktop app's notification window.
use vstd::prelude::*;
use vstd::string::StringExecFns;

verus! {

/// The page the notification window opens for a notification of kind
/// `notify_type` with text `notify_message`.
pub open spec fn notify_url_spec(notify_type: Seq<char>, notify_message: Seq<char>) -> Seq<char> {
    "/notify.html?type="@ + notify_type + "&message="@ + notify_message
}

/// The page the notification window opens, with the notification's kind
/// and text in its query (inserted as they are).
pub fn notify_url(notify_type: &str, notify_message: &str) -> (r: String)
    ensures
        r@ == notify_url_spec(notify_type@, notify_message@),
{
    let mut r = String::from_str("/notify.html?type=");
    r.append(notify_type);
    r.append("&message=");
    r.append(notify_message);
    r
}

} // verus!
