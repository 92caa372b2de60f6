//! Settings of the VPN tunnel device.
use vstd::prelude::*;
use vstd::string::{StringExecFns, StringSliceAdditionalSpecFns};

verus! {

/// The tun interface name `p` is acceptable: on macOS it must be longer
/// than four bytes and start with `utun`; elsewhere any name is.
pub open spec fn tun_name_ok(p: Seq<u8>, macos: bool) -> bool {
    !macos || (p.len() > 4 && p.subrange(0, 4) == seq![117u8, 116, 117, 110])
}

/// Checks a tun interface name; `macos` tells whether the program runs on
/// macOS, where the name must be `utun` followed by the unit number.
pub fn validate_tun(p: &str, macos: bool) -> (r: Result<String, String>)
    requires
        macos && p.spec_bytes().len() > 4 ==> vstd::utf8::is_char_boundary(p.spec_bytes(), 4),
    ensures
        match r {
            Ok(name) => tun_name_ok(p.spec_bytes(), macos) && name@ == p@,
            Err(msg) => !tun_name_ok(p.spec_bytes(), macos) && msg@ == "Invalid tun interface name, please use utunX"@,
        },
{
    if macos {
        let b = p.as_bytes();
        if b.len() <= 4 || !(b[0] == 117 && b[1] == 116 && b[2] == 117 && b[3] == 110) {
            proof {
                if b@.len() > 4 && b@.subrange(0, 4) == seq![117u8, 116, 117, 110] {
                    assert(b@.subrange(0, 4)[0] == b@[0]);
                    assert(b@.subrange(0, 4)[1] == b@[1]);
                    assert(b@.subrange(0, 4)[2] == b@[2]);
                    assert(b@.subrange(0, 4)[3] == b@[3]);
                }
            }
            return Err(String::from_str("Invalid tun interface name, please use utunX"));
        }
        assert(b@.subrange(0, 4) =~= seq![117u8, 116, 117, 110]);
    }
    Ok(String::from_str(p))
}

} // verus!
