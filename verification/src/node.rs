//! What a node does with each message it receives: a client that also
//! serves as a relay, and the hub that hands out relays. The decisions are
//! made here; the caller sends the messages (signing those marked so) and
//! reports the notices.

use vstd::prelude::*;
use crate::addr::NetAddr;
use crate::counter::{MsgIdCounter, new_msg_id, next_id};
use crate::crypto::{peer_id_from_verifying_key, peer_id_spec};
use crate::peers::{
    PeerTable, addrs_other_than, first_elsewhere, first_named, has_id, id_position, ids_unique, lemma_addrs_other_than,
    lemma_first_elsewhere, lemma_first_named, lemma_registered, registered,
};
use crate::types::{
    Headers, HeadersView, Message, MessageView, Payload, PayloadView, PeerInfo, PeerInfoView,
};

verus! {

/// A step a node takes in answer to a message.
#[derive(Debug)]
pub enum NodeAction {
    /// Send a message this node wrote, signing it first when `sign`.
    Send { msg: Message, to: NetAddr, sign: bool },
    /// Relay a text message to one of the peers.
    Relay { msg: Message, to: NetAddr },
    /// Pass a connection request on to its destination.
    Forward { msg: Message, to: NetAddr },
    /// A connection request names a destination this node does not know.
    PeerUnknown { addr: NetAddr, username: String },
    /// A request asks for a peer this node does not know.
    PeerNotFound { username: String },
    /// The message is not one the node handles.
    Unexpected,
}

pub enum NodeActionView {
    Send { msg: MessageView, to: NetAddr, sign: bool },
    Relay { msg: MessageView, to: NetAddr },
    Forward { msg: MessageView, to: NetAddr },
    PeerUnknown { addr: NetAddr, username: Seq<char> },
    PeerNotFound { username: Seq<char> },
    Unexpected,
}

impl View for NodeAction {
    type V = NodeActionView;

    open spec fn view(&self) -> NodeActionView {
        match self {
            NodeAction::Send { msg, to, sign } => NodeActionView::Send {
                msg: msg@,
                to: *to,
                sign: *sign,
            },
            NodeAction::Relay { msg, to } => NodeActionView::Relay { msg: msg@, to: *to },
            NodeAction::Forward { msg, to } => NodeActionView::Forward { msg: msg@, to: *to },
            NodeAction::PeerUnknown { addr, username } => NodeActionView::PeerUnknown {
                addr: *addr,
                username: username@,
            },
            NodeAction::PeerNotFound { username } => NodeActionView::PeerNotFound {
                username: username@,
            },
            NodeAction::Unexpected => NodeActionView::Unexpected,
        }
    }
}

pub open spec fn actions_view(v: Seq<NodeAction>) -> Seq<NodeActionView> {
    v.map_values(|a: NodeAction| a@)
}

/// A message written by a node at `src`: an empty signature, and the
/// node itself as last hop.
pub open spec fn message_view(
    id: u64,
    src: NetAddr,
    src_username: Seq<char>,
    dst: NetAddr,
    dst_username: Seq<char>,
    time: u64,
    payload: PayloadView,
) -> MessageView {
    MessageView {
        headers: HeadersView {
            msg_id: id,
            src_addr: src,
            src_username,
            dst_addr: dst,
            dst_username,
            time,
            signature: seq![],
        },
        payload,
        last_hop: src,
    }
}

/// Writes a new message from `src` to `dst`.
pub fn new_message(
    id: u64,
    src: NetAddr,
    src_username: String,
    dst: NetAddr,
    dst_username: String,
    time: u64,
    payload: Payload,
) -> (m: Message)
    ensures
        m@ == message_view(id, src, src_username@, dst, dst_username@, time, payload@),
{
    Message {
        headers: Headers {
            msg_id: id,
            src_addr: src,
            src_username,
            dst_addr: dst,
            dst_username,
            time,
            signature: Vec::new(),
        },
        payload,
        last_hop: src,
    }
}

/// `m` as relayed by the node at `relayer`: the relayer becomes its last hop.
pub open spec fn relayed(m: MessageView, relayer: NetAddr) -> MessageView {
    MessageView { last_hop: relayer, ..m }
}

/// A client node that also serves as a relay: its own address and name,
/// the peers registered with it, and its message identifiers.
#[derive(Debug)]
pub struct RelayNode {
    pub public_addr: NetAddr,
    pub name: String,
    pub peers: PeerTable,
    pub ids: MsgIdCounter,
}

/// The record a relay keeps of a client that registers with `verifying_key`.
pub open spec fn client_record(m: MessageView, verifying_key: Seq<u8>, now: u64, is_relay: bool) -> PeerInfoView {
    PeerInfoView {
        id: peer_id_spec(verifying_key),
        addr: m.headers.src_addr,
        username: m.headers.src_username,
        last_seen: now,
        is_relay,
        verifying_key,
    }
}

/// What a relay node does with a message `m` received at `now`, given its
/// address, name, peers and next message identifier: the peers afterwards,
/// the next identifier afterwards, and the actions, in order.
///
/// - `Register`: the sender's record is noted as seen now (or added), and
///   an acknowledgement of the message is sent back, signed.
/// - `Classic`: unless addressed to this node, it is relayed to every peer
///   but its source, with this node as last hop.
/// - `Connect`: passed on to its destination if that is a known peer;
///   otherwise the destination is reported unknown.
/// - `RelayHasNewClient`: a signed `PunchTheHole` goes to the new client.
/// - `AskForAddr`: the record of the first peer of that name goes back,
///   signed, or the name is reported not found.
/// - anything else: nothing.
pub open spec fn relay_step(
    public: NetAddr,
    name: Seq<char>,
    peers: Seq<PeerInfoView>,
    id: u64,
    m: MessageView,
    now: u64,
) -> (Seq<PeerInfoView>, u64, Seq<NodeActionView>) {
    let h = m.headers;
    match m.payload {
        PayloadView::Register { verifying_key } => (
            registered(peers, peer_id_spec(verifying_key), now, client_record(m, verifying_key, now, false)),
            next_id(id),
            seq![
                NodeActionView::Send {
                    msg: message_view(id, public, name, h.src_addr, h.src_username, now, PayloadView::Ack { reply_to: h.msg_id }),
                    to: h.src_addr,
                    sign: true,
                },
            ],
        ),
        PayloadView::Classic { .. } => (
            peers,
            id,
            if public != h.dst_addr {
                relays_of(peers, public, m)
            } else {
                seq![]
            },
        ),
        PayloadView::Connect => (
            peers,
            id,
            if exists|i: int| 0 <= i < peers.len() && #[trigger] peers[i].addr == h.dst_addr {
                seq![NodeActionView::Forward { msg: m, to: h.dst_addr }]
            } else {
                seq![NodeActionView::PeerUnknown { addr: h.dst_addr, username: h.dst_username }]
            },
        ),
        PayloadView::RelayHasNewClient { peer_addr, peer_id } => (
            peers,
            next_id(id),
            seq![
                NodeActionView::Send {
                    msg: message_view(id, public, name, peer_addr, peer_id, now, PayloadView::PunchTheHole),
                    to: peer_addr,
                    sign: true,
                },
            ],
        ),
        PayloadView::AskForAddr { username } => match first_named(peers, username) {
            Some(p) => (
                peers,
                next_id(id),
                seq![
                    NodeActionView::Send {
                        msg: message_view(id, public, name, h.src_addr, h.src_username, now, PayloadView::PeerInfo { peer_info: p }),
                        to: h.src_addr,
                        sign: true,
                    },
                ],
            ),
            None => (peers, id, seq![NodeActionView::PeerNotFound { username }]),
        },
        _ => (peers, id, seq![]),
    }
}

/// The relays of `m` by the node at `relayer`: one to each peer other
/// than the message's source, in table order.
pub open spec fn relays_of(peers: Seq<PeerInfoView>, relayer: NetAddr, m: MessageView) -> Seq<NodeActionView> {
    addrs_other_than(peers, m.headers.src_addr).map_values(
        |a: NetAddr| NodeActionView::Relay { msg: relayed(m, relayer), to: a },
    )
}

/// Relays a message to every peer but its source, with the relayer as
/// its last hop.
pub fn relay_message(peers: &PeerTable, relayer_addr: NetAddr, msg: &Message) -> (actions: Vec<NodeAction>)
    ensures
        actions_view(actions@) == relays_of(peers@, relayer_addr, msg@),
{
    let targets = peers.addrs_except(&msg.headers.src_addr);
    let ghost expected = relays_of(peers@, relayer_addr, msg@);
    let mut actions: Vec<NodeAction> = Vec::new();
    let mut i: usize = 0;
    while i < targets.len()
        invariant
            i <= targets@.len(),
            targets@ == addrs_other_than(peers@, msg@.headers.src_addr),
            expected == relays_of(peers@, relayer_addr, msg@),
            actions_view(actions@) == expected.subrange(0, i as int),
        decreases targets.len() - i,
    {
        let mut copy = msg.duplicate();
        copy.last_hop = relayer_addr;
        let ghost before = actions@;
        let act = NodeAction::Relay { msg: copy, to: targets[i] };
        assert(act@ == expected[i as int]);
        actions.push(act);
        assert(actions_view(actions@) =~= actions_view(before).push(act@));
        assert(expected.subrange(0, i + 1) =~= expected.subrange(0, i as int).push(expected[i as int]));
        i = i + 1;
    }
    assert(expected.subrange(0, targets@.len() as int) =~= expected);
    actions
}

fn one_action(a: NodeAction) -> (v: Vec<NodeAction>)
    ensures
        actions_view(v@) == seq![a@],
{
    let mut v: Vec<NodeAction> = Vec::new();
    v.push(a);
    assert(actions_view(v@) =~= seq![a@]);
    v
}

impl RelayNode {
    /// Handles a message received at `now` as `relay_step` says.
    pub fn handle_message(&mut self, m: &Message, now: u64) -> (actions: Vec<NodeAction>)
        requires
            old(self).peers.wf(),
        ensures
            final(self).peers.wf(),
            final(self).public_addr == old(self).public_addr,
            final(self).name@ == old(self).name@,
            (final(self).peers@, final(self).ids@, actions_view(actions@)) == relay_step(
                old(self).public_addr,
                old(self).name@,
                old(self).peers@,
                old(self).ids@,
                m@,
                now,
            ),
    {
        let h = &m.headers;
        match &m.payload {
            Payload::Register { verifying_key } => {
                let id = peer_id_from_verifying_key(verifying_key);
                let fresh = PeerInfo {
                    id: id.clone(),
                    addr: h.src_addr,
                    username: h.src_username.clone(),
                    last_seen: now,
                    is_relay: false,
                    verifying_key: *verifying_key,
                };
                self.peers.register(id.as_str(), now, fresh);
                let msg_id = new_msg_id(&mut self.ids);
                let ack = new_message(
                    msg_id,
                    self.public_addr,
                    self.name.clone(),
                    h.src_addr,
                    h.src_username.clone(),
                    now,
                    Payload::Ack { reply_to: h.msg_id },
                );
                one_action(NodeAction::Send { msg: ack, to: h.src_addr, sign: true })
            },
            Payload::Classic { .. } => {
                if self.public_addr != h.dst_addr {
                    relay_message(&self.peers, self.public_addr, m)
                } else {
                    let v: Vec<NodeAction> = Vec::new();
                    assert(actions_view(v@) =~= seq![]);
                    v
                }
            },
            Payload::Connect => {
                if self.peers.has_addr(&h.dst_addr) {
                    one_action(NodeAction::Forward { msg: m.duplicate(), to: h.dst_addr })
                } else {
                    one_action(
                        NodeAction::PeerUnknown { addr: h.dst_addr, username: h.dst_username.clone() },
                    )
                }
            },
            Payload::RelayHasNewClient { peer_addr, peer_id } => {
                let msg_id = new_msg_id(&mut self.ids);
                let punch = new_message(
                    msg_id,
                    self.public_addr,
                    self.name.clone(),
                    *peer_addr,
                    peer_id.clone(),
                    now,
                    Payload::PunchTheHole,
                );
                one_action(NodeAction::Send { msg: punch, to: *peer_addr, sign: true })
            },
            Payload::AskForAddr { username } => {
                match self.peers.find_by_username(username.as_str()) {
                    Some(p) => {
                        let msg_id = new_msg_id(&mut self.ids);
                        let reply = new_message(
                            msg_id,
                            self.public_addr,
                            self.name.clone(),
                            h.src_addr,
                            h.src_username.clone(),
                            now,
                            Payload::PeerInfo { peer_info: p },
                        );
                        one_action(NodeAction::Send { msg: reply, to: h.src_addr, sign: true })
                    },
                    None => one_action(NodeAction::PeerNotFound { username: username.clone() }),
                }
            },
            _ => {
                let v: Vec<NodeAction> = Vec::new();
                assert(actions_view(v@) =~= seq![]);
                v
            },
        }
    }
}

/// The hub: its address and name, the relays that declared themselves,
/// and its message identifiers.
#[derive(Debug)]
pub struct HubNode {
    pub public_addr: NetAddr,
    pub name: String,
    pub relays: PeerTable,
    pub ids: MsgIdCounter,
}

/// The name the hub signs its relay offers with.
pub open spec fn hub_name() -> Seq<char> {
    seq!['h', 'u', 'b']
}

fn hub_name_string() -> (s: String)
    ensures
        s@ == hub_name(),
{
    let mut s = String::new();
    crate::text::push_char(&mut s, 'h');
    crate::text::push_char(&mut s, 'u');
    crate::text::push_char(&mut s, 'b');
    s
}

/// What the hub does with a message `m` received at `now`, given its
/// address, name, relays and next message identifier: the relays
/// afterwards, the next identifier afterwards, and the messages it sends,
/// in order (the hub signs none).
///
/// - `BeNewRelay`: the relay's record is noted as seen at the message's
///   time (or added, as a relay), and the message is acknowledged.
/// - `NeedRelay`: if some relay is at another address than the asker, the
///   first such relay's record goes to the asker and that relay is told of
///   the new client; otherwise the asker hears that no relay is available.
/// - anything else is reported unexpected.
pub open spec fn hub_step(
    public: NetAddr,
    name: Seq<char>,
    relays: Seq<PeerInfoView>,
    id: u64,
    m: MessageView,
    now: u64,
) -> (Seq<PeerInfoView>, u64, Seq<NodeActionView>) {
    let h = m.headers;
    match m.payload {
        PayloadView::BeNewRelay { verifying_key } => (
            registered(relays, peer_id_spec(verifying_key), h.time, client_record(m, verifying_key, h.time, true)),
            next_id(id),
            seq![
                NodeActionView::Send {
                    msg: message_view(id, public, name, h.src_addr, h.src_username, now, PayloadView::Ack { reply_to: h.msg_id }),
                    to: h.src_addr,
                    sign: false,
                },
            ],
        ),
        PayloadView::NeedRelay => match first_elsewhere(relays, h.src_addr) {
            Some(r) => (
                relays,
                next_id(next_id(id)),
                seq![
                    NodeActionView::Send {
                        msg: message_view(id, public, hub_name(), h.src_addr, h.src_username, now, PayloadView::PeerInfo { peer_info: r }),
                        to: h.src_addr,
                        sign: false,
                    },
                    NodeActionView::Send {
                        msg: message_view(
                            next_id(id),
                            public,
                            hub_name(),
                            r.addr,
                            r.username,
                            now,
                            PayloadView::RelayHasNewClient { peer_addr: h.src_addr, peer_id: h.src_username },
                        ),
                        to: r.addr,
                        sign: false,
                    },
                ],
            ),
            None => (
                relays,
                next_id(id),
                seq![
                    NodeActionView::Send {
                        msg: message_view(id, public, hub_name(), h.src_addr, h.src_username, now, PayloadView::NoRelayAvailable),
                        to: h.src_addr,
                        sign: false,
                    },
                ],
            ),
        },
        _ => (relays, id, seq![NodeActionView::Unexpected]),
    }
}

impl HubNode {
    /// Handles a message received at `now` as `hub_step` says.
    pub fn handle_message(&mut self, m: &Message, now: u64) -> (actions: Vec<NodeAction>)
        requires
            old(self).relays.wf(),
        ensures
            final(self).relays.wf(),
            final(self).public_addr == old(self).public_addr,
            final(self).name@ == old(self).name@,
            (final(self).relays@, final(self).ids@, actions_view(actions@)) == hub_step(
                old(self).public_addr,
                old(self).name@,
                old(self).relays@,
                old(self).ids@,
                m@,
                now,
            ),
    {
        let h = &m.headers;
        match &m.payload {
            Payload::BeNewRelay { verifying_key } => {
                let id = peer_id_from_verifying_key(verifying_key);
                let fresh = PeerInfo {
                    id: id.clone(),
                    addr: h.src_addr,
                    username: h.src_username.clone(),
                    last_seen: h.time,
                    is_relay: true,
                    verifying_key: *verifying_key,
                };
                self.relays.register(id.as_str(), h.time, fresh);
                let msg_id = new_msg_id(&mut self.ids);
                let ack = new_message(
                    msg_id,
                    self.public_addr,
                    self.name.clone(),
                    h.src_addr,
                    h.src_username.clone(),
                    now,
                    Payload::Ack { reply_to: h.msg_id },
                );
                one_action(NodeAction::Send { msg: ack, to: h.src_addr, sign: false })
            },
            Payload::NeedRelay => {
                match self.relays.find_elsewhere(&h.src_addr) {
                    Some(r) => {
                        let relay_addr = r.addr;
                        let relay_name = r.username.clone();
                        let first_id = new_msg_id(&mut self.ids);
                        let offer = new_message(
                            first_id,
                            self.public_addr,
                            hub_name_string(),
                            h.src_addr,
                            h.src_username.clone(),
                            now,
                            Payload::PeerInfo { peer_info: r },
                        );
                        let second_id = new_msg_id(&mut self.ids);
                        let notice = new_message(
                            second_id,
                            self.public_addr,
                            hub_name_string(),
                            relay_addr,
                            relay_name,
                            now,
                            Payload::RelayHasNewClient {
                                peer_addr: h.src_addr,
                                peer_id: h.src_username.clone(),
                            },
                        );
                        let mut v: Vec<NodeAction> = Vec::new();
                        v.push(NodeAction::Send { msg: offer, to: h.src_addr, sign: false });
                        v.push(NodeAction::Send { msg: notice, to: relay_addr, sign: false });
                        assert(actions_view(v@) =~= hub_step(
                            old(self).public_addr,
                            old(self).name@,
                            old(self).relays@,
                            old(self).ids@,
                            m@,
                            now,
                        ).2);
                        v
                    },
                    None => {
                        let msg_id = new_msg_id(&mut self.ids);
                        let refusal = new_message(
                            msg_id,
                            self.public_addr,
                            hub_name_string(),
                            h.src_addr,
                            h.src_username.clone(),
                            now,
                            Payload::NoRelayAvailable,
                        );
                        one_action(NodeAction::Send { msg: refusal, to: h.src_addr, sign: false })
                    },
                }
            },
            _ => one_action(NodeAction::Unexpected),
        }
    }
}

/// A relay passes a text message on only to its peers, never back to the
/// address it came from, and every peer other than the source gets it,
/// with the relay as last hop.
pub proof fn lemma_relay_never_echoes(
    public: NetAddr,
    name: Seq<char>,
    peers: Seq<PeerInfoView>,
    id: u64,
    m: MessageView,
    now: u64,
)
    requires
        m.payload is Classic,
        public != m.headers.dst_addr,
    ensures
        forall|i: int|
            0 <= i < relay_step(public, name, peers, id, m, now).2.len() ==> (#[trigger] relay_step(
                public,
                name,
                peers,
                id,
                m,
                now,
            ).2[i] matches NodeActionView::Relay { msg, to } && to != m.headers.src_addr && msg == relayed(m, public)
                && exists|k: int| 0 <= k < peers.len() && peers[k].addr == to),
        forall|k: int|
            0 <= k < peers.len() && #[trigger] peers[k].addr != m.headers.src_addr ==> relay_step(
                public,
                name,
                peers,
                id,
                m,
                now,
            ).2.contains(NodeActionView::Relay { msg: relayed(m, public), to: peers[k].addr }),
{
    let targets = addrs_other_than(peers, m.headers.src_addr);
    let acts = relay_step(public, name, peers, id, m, now).2;
    lemma_addrs_other_than(peers, m.headers.src_addr);
    assert(acts == relays_of(peers, public, m));
    assert forall|i: int| 0 <= i < acts.len() implies (#[trigger] acts[i] matches NodeActionView::Relay { msg, to } && to
        != m.headers.src_addr && msg == relayed(m, public) && exists|k: int| 0 <= k < peers.len() && peers[k].addr == to) by {
        assert(acts[i] == NodeActionView::Relay { msg: relayed(m, public), to: targets[i] });
        assert(targets[i] != m.headers.src_addr);
    }
    assert forall|k: int| 0 <= k < peers.len() && #[trigger] peers[k].addr != m.headers.src_addr implies acts.contains(
        NodeActionView::Relay { msg: relayed(m, public), to: peers[k].addr },
    ) by {
        assert(targets.contains(peers[k].addr));
        let i = choose|i: int| 0 <= i < targets.len() && targets[i] == peers[k].addr;
        assert(acts[i] == NodeActionView::Relay { msg: relayed(m, public), to: peers[k].addr });
    }
}

/// A client that registers with a relay is known to it afterwards, seen
/// at the time it registered, and the other peers stay known.
pub proof fn lemma_registered_client_is_known(
    public: NetAddr,
    name: Seq<char>,
    peers: Seq<PeerInfoView>,
    id: u64,
    m: MessageView,
    now: u64,
    verifying_key: Seq<u8>,
)
    requires
        ids_unique(peers),
        m.payload == (PayloadView::Register { verifying_key }),
    ensures
        has_id(relay_step(public, name, peers, id, m, now).0, peer_id_spec(verifying_key)),
        relay_step(public, name, peers, id, m, now).0[id_position(
            relay_step(public, name, peers, id, m, now).0,
            peer_id_spec(verifying_key),
        )].last_seen == now,
        forall|k: int|
            0 <= k < peers.len() && #[trigger] peers[k].id != peer_id_spec(verifying_key) ==> relay_step(
                public,
                name,
                peers,
                id,
                m,
                now,
            ).0.contains(peers[k]),
{
    lemma_registered(peers, peer_id_spec(verifying_key), now, client_record(m, verifying_key, now, false));
}

/// The relay the hub offers to a client is one of its relays and is not
/// at the client's own address; the hub refuses only when every relay it
/// knows is at the client's address.
pub proof fn lemma_hub_offers_another_relay(
    public: NetAddr,
    name: Seq<char>,
    relays: Seq<PeerInfoView>,
    id: u64,
    m: MessageView,
    now: u64,
)
    requires
        m.payload is NeedRelay,
    ensures
        hub_step(public, name, relays, id, m, now).2[0] matches NodeActionView::Send { msg, .. } && (
        msg.payload matches PayloadView::PeerInfo { peer_info } ==> peer_info.addr != m.headers.src_addr
            && relays.contains(peer_info)),
        hub_step(public, name, relays, id, m, now).2[0] matches NodeActionView::Send { msg, .. } && (
        msg.payload is NoRelayAvailable ==> forall|k: int| 0 <= k < relays.len() ==> #[trigger] relays[k].addr
            == m.headers.src_addr),
{
    lemma_first_elsewhere(relays, m.headers.src_addr);
}

/// A relay answers a request for a name with the record of one of its
/// peers of that name, back to the asker; it reports the name not found
/// only when none of its peers has it.
pub proof fn lemma_answer_is_a_peer_of_that_name(
    public: NetAddr,
    name: Seq<char>,
    peers: Seq<PeerInfoView>,
    id: u64,
    m: MessageView,
    now: u64,
    username: Seq<char>,
)
    requires
        m.payload == (PayloadView::AskForAddr { username }),
    ensures
        relay_step(public, name, peers, id, m, now).2.len() == 1,
        relay_step(public, name, peers, id, m, now).2[0] matches NodeActionView::Send { msg, to, .. } ==> (to
            == m.headers.src_addr && (msg.payload matches PayloadView::PeerInfo { peer_info } && peer_info.username
            == username && peers.contains(peer_info))),
        relay_step(public, name, peers, id, m, now).2[0] is PeerNotFound ==> forall|k: int|
            0 <= k < peers.len() ==> #[trigger] peers[k].username != username,
{
    lemma_first_named(peers, username);
}

/// The hub records a node that declares itself a relay at the address the
/// declaration came from, under the name it gave, as a relay last seen at
/// the declaration's time; it acknowledges the declaration to that
/// address. A relay it knew already is only seen again at that time.
pub proof fn lemma_hub_records_declared_relay(
    public: NetAddr,
    name: Seq<char>,
    relays: Seq<PeerInfoView>,
    id: u64,
    m: MessageView,
    now: u64,
    verifying_key: Seq<u8>,
)
    requires
        ids_unique(relays),
        m.payload == (PayloadView::BeNewRelay { verifying_key }),
    ensures
        (forall|k: int| 0 <= k < relays.len() ==> #[trigger] relays[k].id != peer_id_spec(verifying_key))
            ==> hub_step(public, name, relays, id, m, now).0.contains(
            PeerInfoView {
                id: peer_id_spec(verifying_key),
                addr: m.headers.src_addr,
                username: m.headers.src_username,
                last_seen: m.headers.time,
                is_relay: true,
                verifying_key,
            },
        ),
        forall|k: int|
            0 <= k < relays.len() && #[trigger] relays[k].id == peer_id_spec(verifying_key) ==> hub_step(
                public,
                name,
                relays,
                id,
                m,
                now,
            ).0.contains(PeerInfoView { last_seen: m.headers.time, ..relays[k] }),
        hub_step(public, name, relays, id, m, now).2.len() == 1,
        hub_step(public, name, relays, id, m, now).2[0] matches NodeActionView::Send { msg, to, sign } && to
            == m.headers.src_addr && !sign && msg.payload == (PayloadView::Ack { reply_to: m.headers.msg_id })
            && msg.headers.dst_addr == m.headers.src_addr && msg.headers.src_addr == public,
{
    let pid = peer_id_spec(verifying_key);
    let after = hub_step(public, name, relays, id, m, now).0;
    if forall|k: int| 0 <= k < relays.len() ==> #[trigger] relays[k].id != pid {
        assert(!has_id(relays, pid));
        assert(after[relays.len() as int] == client_record(m, verifying_key, m.headers.time, true));
    }
    assert forall|k: int| 0 <= k < relays.len() && #[trigger] relays[k].id == pid implies after.contains(
        PeerInfoView { last_seen: m.headers.time, ..relays[k] },
    ) by {
        assert(has_id(relays, pid));
        let i = id_position(relays, pid);
        assert(relays[i].id == pid);
        assert(i == k);
        assert(after[k] == PeerInfoView { last_seen: m.headers.time, ..relays[k] });
    }
}

/// A relay declared to a hub that knew no relay is what the hub offers
/// the next client asking for one from another address; that relay is
/// told of the client.
pub proof fn lemma_hub_offers_declared_relay(
    public: NetAddr,
    name: Seq<char>,
    id: u64,
    m1: MessageView,
    now1: u64,
    verifying_key: Seq<u8>,
    m2: MessageView,
    now2: u64,
)
    requires
        m1.payload == (PayloadView::BeNewRelay { verifying_key }),
        m2.payload is NeedRelay,
        m2.headers.src_addr != m1.headers.src_addr,
    ensures
        ({
            let (relays1, id1, _) = hub_step(public, name, seq![], id, m1, now1);
            let acts = hub_step(public, name, relays1, id1, m2, now2).2;
            &&& acts.len() == 2
            &&& acts[0] matches NodeActionView::Send { msg, to, .. } && to == m2.headers.src_addr && (
            msg.payload matches PayloadView::PeerInfo { peer_info } && peer_info.addr == m1.headers.src_addr
                && peer_info.username == m1.headers.src_username)
            &&& acts[1] matches NodeActionView::Send { msg, to, .. } && to == m1.headers.src_addr
                && msg.payload == (PayloadView::RelayHasNewClient {
                peer_addr: m2.headers.src_addr,
                peer_id: m2.headers.src_username,
            })
        }),
{
    let relays1 = hub_step(public, name, seq![], id, m1, now1).0;
    assert(!has_id(Seq::<PeerInfoView>::empty(), peer_id_spec(verifying_key)));
    assert(relays1 =~= seq![client_record(m1, verifying_key, m1.headers.time, true)]);
    assert(relays1.drop_first() =~= Seq::<PeerInfoView>::empty());
}

/// A relay bridges a connection request unchanged: when the destination is
/// one of its peers, it forwards the very message it received to that
/// address; otherwise it reports the destination unknown. Its peers stay
/// as they were.
pub proof fn lemma_connect_forwarded_unchanged(
    public: NetAddr,
    name: Seq<char>,
    peers: Seq<PeerInfoView>,
    id: u64,
    m: MessageView,
    now: u64,
)
    requires
        m.payload is Connect,
    ensures
        relay_step(public, name, peers, id, m, now).0 == peers,
        relay_step(public, name, peers, id, m, now).1 == id,
        relay_step(public, name, peers, id, m, now).2.len() == 1,
        (exists|k: int| 0 <= k < peers.len() && #[trigger] peers[k].addr == m.headers.dst_addr) ==> relay_step(
            public,
            name,
            peers,
            id,
            m,
            now,
        ).2[0] == (NodeActionView::Forward { msg: m, to: m.headers.dst_addr }),
        (forall|k: int| 0 <= k < peers.len() ==> #[trigger] peers[k].addr != m.headers.dst_addr) ==> relay_step(
            public,
            name,
            peers,
            id,
            m,
            now,
        ).2[0] == (NodeActionView::PeerUnknown { addr: m.headers.dst_addr, username: m.headers.dst_username }),
{
}

} // verus!
