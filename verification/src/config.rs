//! The listen address: a configured or default host and port, joined as
//! `<ip>:<port>`.

use vstd::prelude::*;
use vstd::string::StringExecFns;

verus! {

/// The address the server binds: the given host (default `0.0.0.0`), a
/// colon, and the given port (default `3000`).
pub open spec fn address_spec(ip: Option<Seq<char>>, port: Option<Seq<char>>) -> Seq<char> {
    (match ip {
        Some(s) => s,
        None => "0.0.0.0"@,
    }) + ":"@ + (match port {
        Some(p) => p,
        None => "3000"@,
    })
}

/// The view of an optionally configured value.
pub open spec fn opt_view(o: Option<String>) -> Option<Seq<char>> {
    match o {
        Some(s) => Some(s@),
        None => None,
    }
}

/// Forms the listen address from the two configuration values, each
/// falling back to its documented default when unset.
pub fn bind_address(ip: Option<String>, port: Option<String>) -> (r: String)
    ensures
        r@ == address_spec(opt_view(ip), opt_view(port)),
{
    let ips: String = match ip {
        Some(s) => s,
        None => String::from_str("0.0.0.0"),
    };
    let ports: String = match port {
        Some(p) => p,
        None => String::from_str("3000"),
    };
    ips.concat(":").concat(ports.as_str())
}

} // verus!
