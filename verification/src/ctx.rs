//! What an instance tells the servers that it asks: who it is.

use vstd::prelude::*;
use crate::text::{decimal, decimal_of, join3, owned};
use crate::weburl::{get_hostname, Url};

verus! {

/// the seconds after which a request is given up
pub const CLIENT_TIMEOUT: u64 = 60;

/// the seconds from one sweep of the peer registry to the next
pub const GC_PERIOD: u64 = 45;

/// The host of an instance with its port, where the URL names one.
pub open spec fn host_and_port(host: Seq<char>, port: Option<u16>) -> Seq<char> {
    match port {
        Some(p) => host + ":"@ + decimal(p as nat),
        None => host,
    }
}

/// The name under which an instance asks other servers: its version, its
/// name and its host, with `---` between them.
pub fn user_agent(version: &str, pkg_name: &str, public_url: &Url) -> (r: String)
    requires
        public_url@.host is Some,
    ensures
        r@ == version@ + "---"@ + pkg_name@ + "---"@ + host_and_port(
            public_url@.host->0,
            public_url@.port,
        ),
{
    let host = match public_url.port() {
        Some(p) => join3(get_hostname(public_url), ":", decimal_of(p as u64).as_str()),
        None => owned(get_hostname(public_url)),
    };
    let head = join3(version, "---", pkg_name);
    let r = join3(head.as_str(), "---", host.as_str());
    assert(r@ =~= version@ + "---"@ + pkg_name@ + "---"@ + host_and_port(
        public_url@.host->0,
        public_url@.port,
    ));
    r
}

} // verus!
