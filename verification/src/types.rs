//! The messages that nodes exchange, the peers they know, and the
//! command-line choices of a node.

use vstd::prelude::*;
use crate::addr::NetAddr;

verus! {

/// The identifier of a peer: the hex text of the SHA-256 digest of its
/// verifying key.
pub type PeerId = String;

/// The largest datagram a node accepts.
pub const MAX_PACKET_SIZE: usize = 65536;

/// What a node knows of a peer.
#[derive(Debug)]
pub struct PeerInfo {
    pub id: PeerId,
    pub addr: NetAddr,
    pub username: String,
    pub last_seen: u64,
    pub is_relay: bool,
    pub verifying_key: [u8; 32],
}

pub struct PeerInfoView {
    pub id: Seq<char>,
    pub addr: NetAddr,
    pub username: Seq<char>,
    pub last_seen: u64,
    pub is_relay: bool,
    pub verifying_key: Seq<u8>,
}

impl View for PeerInfo {
    type V = PeerInfoView;

    open spec fn view(&self) -> PeerInfoView {
        PeerInfoView {
            id: self.id@,
            addr: self.addr,
            username: self.username@,
            last_seen: self.last_seen,
            is_relay: self.is_relay,
            verifying_key: self.verifying_key@,
        }
    }
}

impl PeerInfo {
    /// A copy of this record.
    pub fn duplicate(&self) -> (r: PeerInfo)
        ensures
            r@ == self@,
    {
        PeerInfo {
            id: self.id.clone(),
            addr: self.addr,
            username: self.username.clone(),
            last_seen: self.last_seen,
            is_relay: self.is_relay,
            verifying_key: self.verifying_key,
        }
    }
}

/// The envelope of a message.
#[derive(Debug)]
pub struct Headers {
    pub msg_id: u64,
    pub src_addr: NetAddr,
    pub src_username: String,
    pub dst_addr: NetAddr,
    pub dst_username: String,
    pub time: u64,
    pub signature: Vec<u8>,
}

pub struct HeadersView {
    pub msg_id: u64,
    pub src_addr: NetAddr,
    pub src_username: Seq<char>,
    pub dst_addr: NetAddr,
    pub dst_username: Seq<char>,
    pub time: u64,
    pub signature: Seq<u8>,
}

impl View for Headers {
    type V = HeadersView;

    open spec fn view(&self) -> HeadersView {
        HeadersView {
            msg_id: self.msg_id,
            src_addr: self.src_addr,
            src_username: self.src_username@,
            dst_addr: self.dst_addr,
            dst_username: self.dst_username@,
            time: self.time,
            signature: self.signature@,
        }
    }
}

impl Headers {
    /// A copy of these headers.
    pub fn duplicate(&self) -> (r: Headers)
        ensures
            r@ == self@,
    {
        Headers {
            msg_id: self.msg_id,
            src_addr: self.src_addr,
            src_username: self.src_username.clone(),
            dst_addr: self.dst_addr,
            dst_username: self.dst_username.clone(),
            time: self.time,
            signature: self.signature.clone(),
        }
    }
}

/// What a message carries.
#[derive(Debug)]
pub enum Payload {
    /// A client registers with a relay.
    Register { verifying_key: [u8; 32] },
    /// A dialing peer asks to be put in contact with the destination.
    Connect,
    /// A node declares itself a relay to the hub.
    BeNewRelay { verifying_key: [u8; 32] },
    /// A node asks the hub for a relay.
    NeedRelay,
    /// The hub has no relay to offer.
    NoRelayAvailable,
    /// A relay opens the way to a new client.
    PunchTheHole,
    /// A text message between peers.
    Classic { txt: String },
    /// A request for the record of the peer of that name.
    AskForAddr { username: String },
    /// The record of a peer.
    PeerInfo { peer_info: PeerInfo },
    /// The hub tells a relay that a client wants to connect through it.
    RelayHasNewClient { peer_addr: NetAddr, peer_id: String },
    /// Acknowledges the message whose id is `reply_to`.
    Ack { reply_to: u64 },
}

pub enum PayloadView {
    Register { verifying_key: Seq<u8> },
    Connect,
    BeNewRelay { verifying_key: Seq<u8> },
    NeedRelay,
    NoRelayAvailable,
    PunchTheHole,
    Classic { txt: Seq<char> },
    AskForAddr { username: Seq<char> },
    PeerInfo { peer_info: PeerInfoView },
    RelayHasNewClient { peer_addr: NetAddr, peer_id: Seq<char> },
    Ack { reply_to: u64 },
}

impl View for Payload {
    type V = PayloadView;

    open spec fn view(&self) -> PayloadView {
        match self {
            Payload::Register { verifying_key } => PayloadView::Register {
                verifying_key: verifying_key@,
            },
            Payload::Connect => PayloadView::Connect,
            Payload::BeNewRelay { verifying_key } => PayloadView::BeNewRelay {
                verifying_key: verifying_key@,
            },
            Payload::NeedRelay => PayloadView::NeedRelay,
            Payload::NoRelayAvailable => PayloadView::NoRelayAvailable,
            Payload::PunchTheHole => PayloadView::PunchTheHole,
            Payload::Classic { txt } => PayloadView::Classic { txt: txt@ },
            Payload::AskForAddr { username } => PayloadView::AskForAddr { username: username@ },
            Payload::PeerInfo { peer_info } => PayloadView::PeerInfo { peer_info: peer_info@ },
            Payload::RelayHasNewClient { peer_addr, peer_id } => PayloadView::RelayHasNewClient {
                peer_addr: *peer_addr,
                peer_id: peer_id@,
            },
            Payload::Ack { reply_to } => PayloadView::Ack { reply_to: *reply_to },
        }
    }
}

impl Payload {
    /// A copy of this payload.
    pub fn duplicate(&self) -> (r: Payload)
        ensures
            r@ == self@,
    {
        match self {
            Payload::Register { verifying_key } => Payload::Register {
                verifying_key: *verifying_key,
            },
            Payload::Connect => Payload::Connect,
            Payload::BeNewRelay { verifying_key } => Payload::BeNewRelay {
                verifying_key: *verifying_key,
            },
            Payload::NeedRelay => Payload::NeedRelay,
            Payload::NoRelayAvailable => Payload::NoRelayAvailable,
            Payload::PunchTheHole => Payload::PunchTheHole,
            Payload::Classic { txt } => Payload::Classic { txt: txt.clone() },
            Payload::AskForAddr { username } => Payload::AskForAddr { username: username.clone() },
            Payload::PeerInfo { peer_info } => Payload::PeerInfo {
                peer_info: peer_info.duplicate(),
            },
            Payload::RelayHasNewClient { peer_addr, peer_id } => Payload::RelayHasNewClient {
                peer_addr: *peer_addr,
                peer_id: peer_id.clone(),
            },
            Payload::Ack { reply_to } => Payload::Ack { reply_to: *reply_to },
        }
    }
}

/// A message: its envelope, what it carries, and the node that last
/// forwarded it.
#[derive(Debug)]
pub struct Message {
    pub headers: Headers,
    pub payload: Payload,
    pub last_hop: NetAddr,
}

pub struct MessageView {
    pub headers: HeadersView,
    pub payload: PayloadView,
    pub last_hop: NetAddr,
}

impl View for Message {
    type V = MessageView;

    open spec fn view(&self) -> MessageView {
        MessageView { headers: self.headers@, payload: self.payload@, last_hop: self.last_hop }
    }
}

impl Message {
    /// A copy of this message.
    pub fn duplicate(&self) -> (r: Message)
        ensures
            r@ == self@,
    {
        Message {
            headers: self.headers.duplicate(),
            payload: self.payload.duplicate(),
            last_hop: self.last_hop,
        }
    }
}

/// The role a node is started in.
#[derive(Debug)]
pub enum Mode {
    /// A client node, named by `peer_id`.
    Client { peer_id: String },
    /// The hub that hands out relays.
    HubRelay,
}

/// The command line of a node.
#[derive(Debug)]
pub struct Opts {
    pub mode: Mode,
}

/// The kinds of NAT that detection can report.
#[derive(Clone, Copy, PartialEq, Eq, Structural, Debug)]
pub enum NatType {
    Unknown,
    UdpBlocked,
    OpenInternet,
    FullCone,
    RestrictedCone,
    PortRestrictedCone,
    SymmetricUdpFirewall,
    Symmetric,
}

/// What a client does once its NAT is known.
#[derive(Clone, Copy, PartialEq, Eq, Structural, Debug)]
pub enum ClientRole {
    /// The node cannot reach the network and stops.
    NoNetwork,
    /// The node can be reached from outside: it serves as a relay too.
    UserAndRelay,
    /// The node is behind a NAT that others cannot punch: user only.
    UserOnly,
}

pub open spec fn client_role_spec(kind: NatType) -> ClientRole {
    match kind {
        NatType::Unknown | NatType::UdpBlocked => ClientRole::NoNetwork,
        NatType::OpenInternet | NatType::FullCone | NatType::RestrictedCone
        | NatType::PortRestrictedCone => ClientRole::UserAndRelay,
        NatType::SymmetricUdpFirewall | NatType::Symmetric => ClientRole::UserOnly,
    }
}

/// The role of a client for the NAT type it detected: no network when
/// the NAT is unknown or blocks UDP; relay as well as user behind an open
/// or cone NAT; user only behind a symmetric NAT or firewall.
pub fn client_role(kind: NatType) -> (r: ClientRole)
    ensures
        r == client_role_spec(kind),
{
    match kind {
        NatType::Unknown | NatType::UdpBlocked => ClientRole::NoNetwork,
        NatType::OpenInternet | NatType::FullCone | NatType::RestrictedCone
        | NatType::PortRestrictedCone => ClientRole::UserAndRelay,
        _ => ClientRole::UserOnly,
    }
}

/// The NAT type that the public mappings of one socket, as two STUN
/// servers report them, show: no answer means UDP is blocked; the same
/// mapping for both servers (or no second answer to tell otherwise) means
/// a cone NAT, taken as port-restricted, the strictest cone; two different
/// mappings mean a symmetric NAT.
pub open spec fn nat_type_of_spec(first: Option<NetAddr>, second: Option<NetAddr>) -> NatType {
    match (first, second) {
        (None, _) => NatType::UdpBlocked,
        (Some(a), Some(b)) => if a == b {
            NatType::PortRestrictedCone
        } else {
            NatType::Symmetric
        },
        (Some(_), None) => NatType::PortRestrictedCone,
    }
}

/// The NAT type that two STUN answers for one socket show.
pub fn nat_type_from_mappings(first: Option<NetAddr>, second: Option<NetAddr>) -> (t: NatType)
    ensures
        t == nat_type_of_spec(first, second),
{
    match (first, second) {
        (None, _) => NatType::UdpBlocked,
        (Some(a), Some(b)) => if a == b {
            NatType::PortRestrictedCone
        } else {
            NatType::Symmetric
        },
        (Some(_), None) => NatType::PortRestrictedCone,
    }
}

/// Whether a datagram of `size` bytes is accepted: it is neither empty
/// nor larger than `MAX_PACKET_SIZE`.
pub fn packet_size_ok(size: usize) -> (b: bool)
    ensures
        b == (size != 0 && size <= MAX_PACKET_SIZE),
{
    !(size == 0 || size > MAX_PACKET_SIZE)
}

} // verus!
