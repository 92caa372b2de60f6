//! The function-compute variant of the proxy server, which runs with a fixed
//! token instead of looking up its cloud instance.
use crate::util::{cycle_password, cycled_password};
use std::sync::Arc;
use vstd::prelude::*;
use vstd::string::StringExecFns;

verus! {

/// The state that the server's request handlers share.
pub struct Context {
    pub password: Arc<Vec<u8>>,
    pub token: String,
}

impl Context {
    /// A context holding the token and the data password.
    pub fn new(token: String, password: Vec<u8>) -> (r: Context)
        ensures
            r.token == token,
            *r.password == password,
    {
        Context { password: Arc::new(password), token }
    }
}

/// The fixed token of this server variant.
pub open spec fn fixed_token() -> Seq<char> {
    "1234567812345678"@
}

/// The server's token and the data password derived from it.
pub fn get_password() -> (r: (String, Vec<u8>))
    ensures
        r.0@ == fixed_token(),
        r.1@ == cycled_password(vstd::utf8::encode_utf8(r.0@)),
{
    let token = String::from_str("1234567812345678");
    proof {
        reveal_strlit("1234567812345678");
        assert(vstd::utf8::is_ascii_chars(token@));
        vstd::utf8::is_ascii_chars_encode_utf8(token@);
    }
    let buf = cycle_password(token.as_str().as_bytes());
    (token, buf)
}

} // verus!
