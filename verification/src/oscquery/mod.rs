//! Announcing the service on the local network: the name it takes, what its
//! metadata endpoint shows, and the records that lead peers to it.

pub mod buffers;
pub mod mdns;
pub mod parse;
pub mod store;
pub mod wire;

use vstd::prelude::*;
use vstd::string::StringExecFns;
use vstd::utf8::encode_utf8;
use rand::distr::{Alphanumeric, SampleString};
use crate::oscquery::mdns::{
    announce_fault, announced, lemma_one_label_can_be_announced, MdnsServer,
};
use crate::oscquery::wire::{NameError, DOT};

verus! {

/// Characters in the part of the service name that is drawn at random.
pub const SUFFIX_LENGTH: usize = 8;

/// Whether `c` is a letter of the English alphabet or a digit.
pub open spec fn is_alphanumeric(c: char) -> bool {
    ('0' <= c && c <= '9') || ('a' <= c && c <= 'z') || ('A' <= c && c <= 'Z')
}

/// Draws `len` characters with `rand::distr::Alphanumeric`, from the random
/// number generator of the thread. Which characters come is left to chance;
/// there are `len` of them and each is a letter of the English alphabet or a
/// digit.
#[verifier::external_body]
fn random_alphanumeric(len: usize) -> (text: String)
    ensures
        text@.len() == len,
        forall|i: int| 0 <= i < text@.len() ==> is_alphanumeric(#[trigger] text@[i]),
{
    Alphanumeric.sample_string(&mut rand::rng(), len)
}

/// How a peer may reach the values behind an address.
#[derive(Debug, Clone, Copy, PartialEq, Eq, Structural)]
pub enum AccessMode {
    /// The address only groups others and has no value of its own.
    NoValue,
    ReadOnly,
    WriteOnly,
    ReadWrite,
}

/// How the service takes OSC packets.
#[derive(Debug, Clone, Copy, PartialEq, Eq, Structural)]
pub enum Transport {
    Udp,
    Tcp,
}

/// The attributes that a metadata endpoint may support.
#[derive(Debug, Clone, Copy, PartialEq, Eq, Structural)]
pub struct Extensions {
    pub access: bool,
    pub clipmode: bool,
    pub range: bool,
    pub type_tag: bool,
    pub value: bool,
}

/// What the metadata endpoint tells about the service.
#[derive(Debug, PartialEq, Eq)]
pub struct HostInfo {
    /// The name of the service.
    pub name: String,
    /// The address at which the service takes OSC packets.
    pub osc_ip: String,
    /// The port at which the service takes OSC packets.
    pub osc_port: u16,
    pub osc_transport: Transport,
    pub extensions: Extensions,
}

/// An address that the metadata endpoint shows.
#[derive(Debug, PartialEq, Eq)]
pub struct Node {
    pub path: String,
    pub access: AccessMode,
}

/// All that is needed to make the service known: what the metadata endpoint
/// shows, where it listens, and the responder that leads peers there.
pub struct Announcement {
    pub service_name: String,
    pub http_port: u16,
    pub host_info: HostInfo,
    pub nodes: Vec<Node>,
    pub responder: MdnsServer,
}

/// The name of the service whose random part is `suffix`.
pub open spec fn service_name_with(suffix: Seq<char>) -> Seq<char> {
    "osc-booper-"@ + suffix
}

/// What the metadata endpoint tells about the service called `name`, which
/// takes packets over UDP at `osc_port` of this host.
pub fn host_info(name: &str, osc_port: u16) -> (info: HostInfo)
    ensures
        info.name@ == name@,
        info.osc_ip@ == "127.0.0.1"@,
        info.osc_port == osc_port,
        info.osc_transport == Transport::Udp,
        info.extensions == (Extensions {
            access: true,
            clipmode: false,
            range: true,
            type_tag: true,
            value: true,
        }),
{
    HostInfo {
        name: String::from_str(name),
        osc_ip: String::from_str("127.0.0.1"),
        osc_port,
        osc_transport: Transport::Udp,
        extensions: Extensions {
            access: true,
            clipmode: false,
            range: true,
            type_tag: true,
            value: true,
        },
    }
}

/// The addresses that the metadata endpoint shows: the root of everything
/// about the avatar, which groups the events that the service listens for.
pub fn announced_nodes() -> (nodes: Vec<Node>)
    ensures
        nodes@.len() == 1,
        nodes@[0].path@ == "/avatar"@,
        nodes@[0].access == AccessMode::NoValue,
{
    let mut nodes: Vec<Node> = Vec::new();
    nodes.push(Node { path: String::from_str("/avatar"), access: AccessMode::NoValue });
    nodes
}

/// Makes the service known under the name with the random part `suffix`. The
/// service takes packets at `osc_port`; its metadata are served over HTTP at
/// `http_port`.
pub fn announce_as(suffix: &str, osc_port: u16, http_port: u16) -> (r: Result<
    Announcement,
    NameError,
>)
    ensures
        match r {
            Ok(made) => {
                &&& announce_fault(encode_utf8(service_name_with(suffix@))).is_none()
                &&& made.service_name@ == service_name_with(suffix@)
                &&& made.http_port == http_port
                &&& made.host_info.name@ == service_name_with(suffix@)
                &&& made.host_info.osc_ip@ == "127.0.0.1"@
                &&& made.host_info.osc_port == osc_port
                &&& made.host_info.osc_transport == Transport::Udp
                &&& made.nodes@.len() == 1
                &&& made.nodes@[0].path@ == "/avatar"@
                &&& made.nodes@[0].access == AccessMode::NoValue
                &&& made.responder@ == announced(
                    Map::empty(),
                    encode_utf8(service_name_with(suffix@)),
                    http_port,
                )
            },
            Err(e) => announce_fault(encode_utf8(service_name_with(suffix@))) == Some(e),
        },
{
    let mut service_name: String = String::from_str("osc-booper-");
    service_name.append(suffix);
    let responder: MdnsServer = match MdnsServer::new(service_name.as_str(), http_port) {
        Ok(responder) => responder,
        Err(e) => {
            return Err(e);
        },
    };
    let host_info: HostInfo = host_info(service_name.as_str(), osc_port);
    Ok(Announcement { service_name, http_port, host_info, nodes: announced_nodes(), responder })
}

/// A service whose name ends in up to 52 letters and digits can be announced:
/// such a name is one label.
pub proof fn lemma_service_name_is_one_label(suffix: Seq<char>)
    requires
        suffix.len() <= 52,
        forall|i: int| 0 <= i < suffix.len() ==> is_alphanumeric(#[trigger] suffix[i]),
    ensures
        announce_fault(encode_utf8(service_name_with(suffix))).is_none(),
        service_name_with(suffix).len() == 11 + suffix.len(),
        service_name_with(suffix).take(11) == "osc-booper-"@,
{
    reveal_strlit("osc-booper-");
    let name = service_name_with(suffix);
    assert(name.take(11) =~= "osc-booper-"@);
    assert forall|i: int| 0 <= i < name.len() implies '\0' <= #[trigger] name[i] <= '\u{7f}'
        && name[i] != '.' by {
        if i >= 11 {
            assert(name[i] == suffix[i - 11]);
            assert(is_alphanumeric(suffix[i - 11]));
        }
    }
    vstd::utf8::is_ascii_chars_encode_utf8(name);
    let bytes = encode_utf8(name);
    assert forall|i: int| 0 <= i < bytes.len() implies bytes[i] != DOT by {
        assert(bytes[i] == name[i] as u8);
        assert(name[i] != '.');
    }
    lemma_one_label_can_be_announced(bytes);
}

/// Makes the service known under a name whose last eight characters are drawn
/// at random.
pub fn announce(osc_port: u16, http_port: u16) -> (made: Announcement)
    ensures
        made.service_name@.len() == 11 + SUFFIX_LENGTH,
        made.service_name@.take(11) == "osc-booper-"@,
        forall|i: int|
            11 <= i < made.service_name@.len() ==> is_alphanumeric(
                #[trigger] made.service_name@[i],
            ),
        made.http_port == http_port,
        made.host_info.name@ == made.service_name@,
        made.host_info.osc_ip@ == "127.0.0.1"@,
        made.host_info.osc_port == osc_port,
        made.host_info.osc_transport == Transport::Udp,
        made.nodes@.len() == 1,
        made.nodes@[0].path@ == "/avatar"@,
        made.nodes@[0].access == AccessMode::NoValue,
        made.responder@ == announced(Map::empty(), encode_utf8(made.service_name@), http_port),
{
    let suffix: String = random_alphanumeric(SUFFIX_LENGTH);
    proof {
        lemma_service_name_is_one_label(suffix@);
    }
    match announce_as(suffix.as_str(), osc_port, http_port) {
        Ok(made) => {
            assert forall|i: int| 11 <= i < made.service_name@.len() implies is_alphanumeric(
                #[trigger] made.service_name@[i],
            ) by {
                assert(made.service_name@[i] == suffix@[i - 11]);
            }
            made
        },
        Err(_) => vstd::pervasive::unreached(),
    }
}

} // verus!
