//! Answering clients that look for servers.

use vstd::prelude::*;

use crate::net;
use crate::net::{IpAddr, SocketAddr};
use crate::number;
use crate::protocol::MAGIC;
use crate::text;

verus! {

/// Where requests are waited for, and where the web interface listens.
#[derive(Debug, Clone, Copy, PartialEq, Eq, Structural)]
pub struct DiscoveryCfg {
    pub bind: SocketAddr,
    pub web_listen: SocketAddr,
}

/// What the server tells about itself.
#[derive(Debug)]
pub struct DiscoverResp {
    pub server_name: String,
    pub web_url: String,
    pub version: String,
}

/// A `DiscoverResp` as mathematical values.
#[verifier::ext_equal]
pub struct DiscoverRespView {
    pub server_name: Seq<char>,
    pub web_url: Seq<char>,
    pub version: Seq<char>,
}

impl View for DiscoverResp {
    type V = DiscoverRespView;

    open spec fn view(&self) -> DiscoverRespView {
        DiscoverRespView {
            server_name: self.server_name@,
            web_url: self.web_url@,
            version: self.version@,
        }
    }
}

/// Whether a packet asks who is there: it is the request, to the byte.
pub fn is_discover_request(packet: &[u8]) -> (r: bool)
    ensures
        r == (packet@ == MAGIC@),
{
    if packet.len() != 15 {
        return false;
    }
    let mut i: usize = 0;
    while i < 15
        invariant
            i <= 15,
            packet@.len() == 15,
            forall|j: int| 0 <= j < i ==> packet@[j] == MAGIC@[j],
        decreases 15 - i,
    {
        if packet[i] != MAGIC[i] {
            return false;
        }
        i = i + 1;
    }
    assert(packet@ =~= MAGIC@);
    true
}

/// The name of the server: that of the machine, where it is known.
pub fn server_name(hostname: Option<String>) -> (r: String)
    ensures
        r@ == match hostname {
            Some(h) => h@,
            None => "usbip-server"@,
        },
{
    match hostname {
        Some(h) => h,
        None => "usbip-server".to_string(),
    }
}

/// The address to bind to in order to learn which own address reaches a peer:
/// any address of the same family, and any port.
pub fn probe_addr(peer: &SocketAddr) -> (r: SocketAddr)
    ensures
        r == (SocketAddr {
            ip: match peer.ip {
                IpAddr::V4(_) => IpAddr::V4(0),
                IpAddr::V6(_) => IpAddr::V6(0),
            },
            port: 0,
        }),
{
    match peer.ip {
        IpAddr::V4(_) => SocketAddr { ip: IpAddr::V4(0), port: 0 },
        IpAddr::V6(_) => SocketAddr { ip: IpAddr::V6(0), port: 0 },
    }
}

/// The web interface at an address.
pub open spec fn web_url_of(ip: IpAddr, port: u16) -> Seq<char> {
    "http://"@ + net::ip_text(ip) + ":"@ + number::decimal(port as int) + "/"@
}

/// The answer to a client: the web interface is given at the own address that
/// reaches that client.
pub fn reply(cfg: &DiscoveryCfg, name: &str, local_ip: &IpAddr, version: &str) -> (r: DiscoverResp)
    ensures
        r@ == (DiscoverRespView {
            server_name: name@,
            web_url: web_url_of(*local_ip, cfg.web_listen.port),
            version: version@,
        }),
{
    let mut url = text::cat("http://", net::ip_string(local_ip).as_str());
    url.append(":");
    url.append(number::decimal_text(cfg.web_listen.port as u64).as_str());
    url.append("/");
    DiscoverResp { server_name: name.to_string(), web_url: url, version: version.to_string() }
}

/// The web interface is an HTTP address: the IP address, a colon, the port and a
/// slash.
pub proof fn the_web_interface_is_an_http_address(ip: IpAddr, port: u16)
    ensures
        web_url_of(ip, port) == "http://"@ + net::ip_text(ip) + ":"@ + number::decimal(port as int)
            + "/"@,
{
}

} // verus!
