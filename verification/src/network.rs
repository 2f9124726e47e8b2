//! Addresses, as text.

use vstd::prelude::*;

use crate::text::{decimal, law_decimal_reads_back, same_text, to_decimal, value_of};

verus! {

/// The lowest port that a worker is taken to serve on.
pub const FIRST_WORKER_PORT: u32 = 50052;

/// The text of a socket address.
pub open spec fn socket_text(host: Seq<char>, port: nat) -> Seq<char> {
    host + ":"@ + decimal(port)
}

/// The text of the socket address that a service is bound to.
pub fn bind_address(bind_addr: &str, port: u16) -> (text: String)
    ensures
        text@ == socket_text(bind_addr@, port as nat),
{
    bind_addr.to_owned().concat(":").concat(to_decimal(port as u64).as_str())
}

/// The URL that a service is reached at.
pub fn endpoint(host: &str, port: u32) -> (url: String)
    ensures
        url@ == "http://"@ + socket_text(host@, port as nat),
{
    let url = "http://".to_owned().concat(host).concat(":").concat(
        to_decimal(port as u64).as_str(),
    );
    assert(url@ =~= "http://"@ + socket_text(host@, port as nat));
    url
}

/// The address under which a peer is remembered.
pub open spec fn remembered_ip(ip: Seq<char>) -> Seq<char> {
    if ip == "::1"@ {
        "127.0.0.1"@
    } else {
        ip
    }
}

/// The address under which a peer is remembered: the IPv6 loopback address
/// stands for the IPv4 one.
pub fn normalize_remote_ip(ip: String) -> (remembered: String)
    ensures
        remembered@ == remembered_ip(ip@),
{
    if same_text(ip.as_str(), "::1") {
        "127.0.0.1".to_owned()
    } else {
        ip
    }
}

/// The port that a worker serves on: the one it was given, or else the one
/// after the master's.
pub fn worker_port(given: Option<u16>, master_port: u16) -> (port: u16)
    requires
        given is None ==> master_port < u16::MAX,
    ensures
        port == match given {
            Some(given) => given as int,
            None => master_port + 1,
        },
{
    match given {
        Some(given) => given,
        None => master_port + 1,
    }
}

/// The text of a socket address is the host, a colon, and the port, which can be
/// read back from it.
pub proof fn law_addresses_read_back(host: Seq<char>, port: nat)
    ensures
        host.is_prefix_of(socket_text(host, port)),
        socket_text(host, port).len() > host.len() + 1,
        socket_text(host, port)[host.len() as int] == ':',
        value_of(socket_text(host, port).skip(host.len() as int + 1)) == port,
        forall|i: int|
            host.len() < i < socket_text(host, port).len() ==> 48 <= #[trigger] socket_text(
                host,
                port,
            )[i] as int <= 57,
{
    reveal_strlit(":");
    law_decimal_reads_back(port);
    let text = socket_text(host, port);
    assert(text.take(host.len() as int) =~= host);
    assert(text.skip(host.len() as int + 1) =~= decimal(port));
    assert forall|i: int| host.len() < i < text.len() implies 48 <= #[trigger] text[i] as int
        <= 57 by {
        assert(text[i] == decimal(port)[i - host.len() - 1]);
    }
}

/// The IPv6 loopback address is remembered as the IPv4 one, and any other as it
/// is.
pub proof fn law_remembered_addresses(ip: Seq<char>)
    ensures
        ip == "::1"@ ==> remembered_ip(ip) == "127.0.0.1"@,
        ip != "::1"@ ==> remembered_ip(ip) == ip,
{
}

} // verus!
