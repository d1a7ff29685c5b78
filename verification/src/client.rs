//! The decisions of a client node: where an incoming message goes, what a
//! line typed by the user means, the messages a client writes, and the
//! steps of finding a relay through the hub.

use vstd::prelude::*;
use crate::addr::NetAddr;
use crate::counter::{MsgIdCounter, new_msg_id, next_id};
use crate::node::{message_view, new_message};
use crate::text::{chars_of, is_white_space, lemma_trim, push_char, string_of, trim_chars, trim_spec};
use crate::types::{Message, MessageView, Payload, PayloadView};

verus! {

/// Where the dispatcher hands a received message.
#[derive(Clone, Copy, PartialEq, Eq, Structural, Debug)]
pub enum Route {
    /// An acknowledgement: it wakes whoever waits for `reply_to`.
    Ack { reply_to: u64 },
    /// A reply of the hub (a relay offer or its refusal).
    Hub,
    /// Everything else.
    General,
}

pub open spec fn route_spec(p: PayloadView) -> Route {
    match p {
        PayloadView::Ack { reply_to } => Route::Ack { reply_to },
        PayloadView::PeerInfo { .. } | PayloadView::NoRelayAvailable => Route::Hub,
        _ => Route::General,
    }
}

/// Where a received message goes: acknowledgements to the waiters, relay
/// offers and refusals to the hub channel, the rest to the general one.
pub fn route(p: &Payload) -> (r: Route)
    ensures
        r == route_spec(p@),
{
    match p {
        Payload::Ack { reply_to } => Route::Ack { reply_to: *reply_to },
        Payload::PeerInfo { .. } | Payload::NoRelayAvailable => Route::Hub,
        _ => Route::General,
    }
}

/// What a line typed by the user asks for.
#[derive(Debug)]
pub enum InputCommand {
    Quit,
    Skip,
    Send { text: String },
}

pub enum InputCommandView {
    Quit,
    Skip,
    Send { text: Seq<char> },
}

impl View for InputCommand {
    type V = InputCommandView;

    open spec fn view(&self) -> InputCommandView {
        match self {
            InputCommand::Quit => InputCommandView::Quit,
            InputCommand::Skip => InputCommandView::Skip,
            InputCommand::Send { text } => InputCommandView::Send { text: text@ },
        }
    }
}

pub open spec fn quit_text() -> Seq<char> {
    seq!['/', 'q']
}

/// A line trimmed of white space: `/q` quits, an empty line is skipped,
/// anything else is sent as it reads.
pub open spec fn input_command_spec(line: Seq<char>) -> InputCommandView {
    let t = trim_spec(line);
    if t == quit_text() {
        InputCommandView::Quit
    } else if t.len() == 0 {
        InputCommandView::Skip
    } else {
        InputCommandView::Send { text: t }
    }
}

/// What a line typed by the user asks for.
pub fn input_command(line: &str) -> (c: InputCommand)
    ensures
        c@ == input_command_spec(line@),
{
    let chars = chars_of(line);
    let t = trim_chars(&chars);
    if t.len() == 2 && t[0] == '/' && t[1] == 'q' {
        assert(t@ =~= quit_text());
        InputCommand::Quit
    } else if t.len() == 0 {
        assert(t@ != quit_text());
        InputCommand::Skip
    } else {
        assert(t@ != quit_text()) by {
            if t@ == quit_text() {
                assert(t@.len() == 2 && t@[0] == '/' && t@[1] == 'q');
            }
        }
        InputCommand::Send { text: string_of(&t) }
    }
}

/// A line the user types is sent only when it holds something besides
/// white space, and then without the white space around it; `/q` is never
/// sent.
pub proof fn lemma_sent_text_is_trimmed(line: Seq<char>)
    ensures
        input_command_spec(line) matches InputCommandView::Send { text } ==> text.len() > 0
            && !is_white_space(text[0]) && !is_white_space(text[text.len() - 1]) && text != quit_text(),
{
    lemma_trim(line);
}

pub open spec fn all_text() -> Seq<char> {
    seq!['a', 'l', 'l']
}

fn all_string() -> (s: String)
    ensures
        s@ == all_text(),
{
    let mut s = String::new();
    push_char(&mut s, 'a');
    push_char(&mut s, 'l');
    push_char(&mut s, 'l');
    s
}

pub open spec fn hub_text() -> Seq<char> {
    seq!['h', 'u', 'b']
}

fn hub_string() -> (s: String)
    ensures
        s@ == hub_text(),
{
    let mut s = String::new();
    push_char(&mut s, 'h');
    push_char(&mut s, 'u');
    push_char(&mut s, 'b');
    s
}

/// A text message typed by the user: to everyone (`0.0.0.0:0`, `all`).
pub fn classic_message(ids: &mut MsgIdCounter, now: u64, public: NetAddr, name: &str, text: &str) -> (m: Message)
    ensures
        final(ids)@ == next_id(old(ids)@),
        m@ == message_view(
            old(ids)@,
            public,
            name@,
            NetAddr::V4 { ip: 0, port: 0 },
            all_text(),
            now,
            PayloadView::Classic { txt: text@ },
        ),
{
    let id = new_msg_id(ids);
    let name_s = string_of(&chars_of(name));
    let txt = string_of(&chars_of(text));
    new_message(id, public, name_s, NetAddr::unspecified(), all_string(), now, Payload::Classic { txt })
}

/// A node's declaration to the hub that it serves as a relay.
pub fn be_new_relay_message(
    ids: &mut MsgIdCounter,
    now: u64,
    public: NetAddr,
    name: &str,
    hub_addr: NetAddr,
    verifying_key: [u8; 32],
) -> (m: Message)
    ensures
        final(ids)@ == next_id(old(ids)@),
        m@ == message_view(
            old(ids)@,
            public,
            name@,
            hub_addr,
            hub_text(),
            now,
            PayloadView::BeNewRelay { verifying_key: verifying_key@ },
        ),
{
    let id = new_msg_id(ids);
    let name_s = string_of(&chars_of(name));
    new_message(id, public, name_s, hub_addr, hub_string(), now, Payload::BeNewRelay { verifying_key })
}

/// Prepares a message to be sent again after no acknowledgement came: it
/// gets a new identifier and the current time (and must be signed anew).
pub fn renew_message(m: &mut Message, ids: &mut MsgIdCounter, now: u64)
    ensures
        final(ids)@ == next_id(old(ids)@),
        final(m)@ == (MessageView {
            headers: crate::types::HeadersView { msg_id: old(ids)@, time: now, ..old(m)@.headers },
            ..old(m)@
        }),
{
    m.headers.msg_id = new_msg_id(ids);
    m.headers.time = now;
}

/// Where a client stands in finding a relay.
#[derive(Debug)]
pub enum ConnectState {
    /// Not started.
    Idle,
    /// A request for a relay went to the hub; its reply is awaited.
    AwaitingHub,
    /// The hub had no relay: waiting before asking again.
    PausingBeforeRetry,
    /// The hub offered a relay: waiting for it to open the way.
    PausingBeforeRegister { relay_addr: NetAddr, relay_name: String },
    /// The registration went to the relay; its acknowledgement is awaited.
    AwaitingAck { relay_addr: NetAddr, relay_name: String },
    /// Finished.
    Done,
}

pub enum ConnectStateView {
    Idle,
    AwaitingHub,
    PausingBeforeRetry,
    PausingBeforeRegister { relay_addr: NetAddr, relay_name: Seq<char> },
    AwaitingAck { relay_addr: NetAddr, relay_name: Seq<char> },
    Done,
}

impl View for ConnectState {
    type V = ConnectStateView;

    open spec fn view(&self) -> ConnectStateView {
        match self {
            ConnectState::Idle => ConnectStateView::Idle,
            ConnectState::AwaitingHub => ConnectStateView::AwaitingHub,
            ConnectState::PausingBeforeRetry => ConnectStateView::PausingBeforeRetry,
            ConnectState::PausingBeforeRegister { relay_addr, relay_name } => ConnectStateView::PausingBeforeRegister {
                relay_addr: *relay_addr,
                relay_name: relay_name@,
            },
            ConnectState::AwaitingAck { relay_addr, relay_name } => ConnectStateView::AwaitingAck {
                relay_addr: *relay_addr,
                relay_name: relay_name@,
            },
            ConnectState::Done => ConnectStateView::Done,
        }
    }
}

/// What happened, as told to the connector.
#[derive(Debug)]
pub enum ConnectEvent {
    /// Start, at `now`.
    Begin { now: u64 },
    /// The hub channel gave a message, or was closed (`None`).
    HubReply { reply: Option<Message> },
    /// A pause is over, at `now`.
    Resume { now: u64 },
    /// The relay acknowledged the registration in time, or not.
    AckResult { acked: bool },
}

pub enum ConnectEventView {
    Begin { now: u64 },
    HubReply { reply: Option<MessageView> },
    Resume { now: u64 },
    AckResult { acked: bool },
}

impl View for ConnectEvent {
    type V = ConnectEventView;

    open spec fn view(&self) -> ConnectEventView {
        match self {
            ConnectEvent::Begin { now } => ConnectEventView::Begin { now: *now },
            ConnectEvent::HubReply { reply } => ConnectEventView::HubReply {
                reply: match reply {
                    Some(m) => Some(m@),
                    None => None,
                },
            },
            ConnectEvent::Resume { now } => ConnectEventView::Resume { now: *now },
            ConnectEvent::AckResult { acked } => ConnectEventView::AckResult { acked: *acked },
        }
    }
}

/// Why finding a relay failed.
#[derive(Clone, Copy, PartialEq, Eq, Structural, Debug)]
pub enum ConnectFailure {
    /// The hub sent something else than a relay offer or a refusal.
    UnexpectedReply,
    /// The hub channel was closed.
    HubClosed,
    /// The relay did not acknowledge the registration.
    NoAck,
}

/// What the client does next.
#[derive(Debug)]
pub enum ConnectAction {
    /// Sign and send this request for a relay to the hub, then wait for
    /// its reply.
    AskHub { msg: Message },
    /// Wait this many milliseconds, then resume.
    Sleep { millis: u64 },
    /// Sign and send this registration to the relay and wait for its
    /// acknowledgement.
    Register { msg: Message, to: NetAddr },
    /// Done: connected to this relay.
    Connected { relay_addr: NetAddr, relay_name: String },
    /// Done: no relay.
    Failed { why: ConnectFailure },
    /// The event does not fit the current step; nothing to do.
    Ignore,
}

pub enum ConnectActionView {
    AskHub { msg: MessageView },
    Sleep { millis: u64 },
    Register { msg: MessageView, to: NetAddr },
    Connected { relay_addr: NetAddr, relay_name: Seq<char> },
    Failed { why: ConnectFailure },
    Ignore,
}

impl View for ConnectAction {
    type V = ConnectActionView;

    open spec fn view(&self) -> ConnectActionView {
        match self {
            ConnectAction::AskHub { msg } => ConnectActionView::AskHub { msg: msg@ },
            ConnectAction::Sleep { millis } => ConnectActionView::Sleep { millis: *millis },
            ConnectAction::Register { msg, to } => ConnectActionView::Register { msg: msg@, to: *to },
            ConnectAction::Connected { relay_addr, relay_name } => ConnectActionView::Connected {
                relay_addr: *relay_addr,
                relay_name: relay_name@,
            },
            ConnectAction::Failed { why } => ConnectActionView::Failed { why: *why },
            ConnectAction::Ignore => ConnectActionView::Ignore,
        }
    }
}

/// A client finding a relay: its address, name and verifying key, the
/// hub's address, and where it stands.
#[derive(Debug)]
pub struct RelayConnector {
    pub public_addr: NetAddr,
    pub name: String,
    pub hub_addr: NetAddr,
    pub verifying_key: [u8; 32],
    pub state: ConnectState,
}

/// The request for a relay that a client sends the hub.
pub open spec fn need_relay_view(id: u64, public: NetAddr, name: Seq<char>, hub: NetAddr, now: u64) -> MessageView {
    message_view(id, public, name, hub, hub_text(), now, PayloadView::NeedRelay)
}

/// One step of finding a relay, given the connector's address, name, key,
/// the hub's address, its state, the next message identifier and the
/// event: the state after, the identifier after, and what to do.
///
/// Begin: ask the hub. A relay offer: pause 2 s, then register with that
/// relay. A refusal: pause 10 s, then ask again. Any other reply, or the
/// hub channel closing: fail. The relay's acknowledgement: connected;
/// none: fail. Any event that does not fit the state: nothing happens.
pub open spec fn connect_step(
    public: NetAddr,
    name: Seq<char>,
    verifying_key: Seq<u8>,
    hub: NetAddr,
    state: ConnectStateView,
    id: u64,
    event: ConnectEventView,
) -> (ConnectStateView, u64, ConnectActionView) {
    match (state, event) {
        (ConnectStateView::Idle, ConnectEventView::Begin { now })
        | (ConnectStateView::PausingBeforeRetry, ConnectEventView::Resume { now }) => (
            ConnectStateView::AwaitingHub,
            next_id(id),
            ConnectActionView::AskHub { msg: need_relay_view(id, public, name, hub, now) },
        ),
        (ConnectStateView::AwaitingHub, ConnectEventView::HubReply { reply }) => match reply {
            Some(m) => match m.payload {
                PayloadView::PeerInfo { peer_info } => (
                    ConnectStateView::PausingBeforeRegister {
                        relay_addr: peer_info.addr,
                        relay_name: peer_info.username,
                    },
                    id,
                    ConnectActionView::Sleep { millis: 2000 },
                ),
                PayloadView::NoRelayAvailable => (
                    ConnectStateView::PausingBeforeRetry,
                    id,
                    ConnectActionView::Sleep { millis: 10000 },
                ),
                _ => (
                    ConnectStateView::Done,
                    id,
                    ConnectActionView::Failed { why: ConnectFailure::UnexpectedReply },
                ),
            },
            None => (ConnectStateView::Done, id, ConnectActionView::Failed { why: ConnectFailure::HubClosed }),
        },
        (ConnectStateView::PausingBeforeRegister { relay_addr, relay_name }, ConnectEventView::Resume { now }) => (
            ConnectStateView::AwaitingAck { relay_addr, relay_name },
            next_id(id),
            ConnectActionView::Register {
                msg: message_view(id, public, name, relay_addr, relay_name, now, PayloadView::Register { verifying_key }),
                to: relay_addr,
            },
        ),
        (ConnectStateView::AwaitingAck { relay_addr, relay_name }, ConnectEventView::AckResult { acked }) => if acked {
            (ConnectStateView::Done, id, ConnectActionView::Connected { relay_addr, relay_name })
        } else {
            (ConnectStateView::Done, id, ConnectActionView::Failed { why: ConnectFailure::NoAck })
        },
        _ => (state, id, ConnectActionView::Ignore),
    }
}

impl RelayConnector {
    /// A connector that has not started.
    pub fn new(public_addr: NetAddr, name: String, hub_addr: NetAddr, verifying_key: [u8; 32]) -> (c: RelayConnector)
        ensures
            c.public_addr == public_addr,
            c.name@ == name@,
            c.hub_addr == hub_addr,
            c.verifying_key == verifying_key,
            c.state@ == ConnectStateView::Idle,
    {
        RelayConnector { public_addr, name, hub_addr, verifying_key, state: ConnectState::Idle }
    }

    /// Takes one step as `connect_step` says.
    pub fn step(&mut self, ids: &mut MsgIdCounter, event: ConnectEvent) -> (a: ConnectAction)
        ensures
            final(self).public_addr == old(self).public_addr,
            final(self).name@ == old(self).name@,
            final(self).hub_addr == old(self).hub_addr,
            final(self).verifying_key == old(self).verifying_key,
            (final(self).state@, final(ids)@, a@) == connect_step(
                old(self).public_addr,
                old(self).name@,
                old(self).verifying_key@,
                old(self).hub_addr,
                old(self).state@,
                old(ids)@,
                event@,
            ),
    {
        let mut state = ConnectState::Done;
        std::mem::swap(&mut state, &mut self.state);
        match (state, event) {
            (ConnectState::Idle, ConnectEvent::Begin { now })
            | (ConnectState::PausingBeforeRetry, ConnectEvent::Resume { now }) => {
                let id = new_msg_id(ids);
                let msg = new_message(
                    id,
                    self.public_addr,
                    self.name.clone(),
                    self.hub_addr,
                    hub_string(),
                    now,
                    Payload::NeedRelay,
                );
                self.state = ConnectState::AwaitingHub;
                ConnectAction::AskHub { msg }
            },
            (ConnectState::AwaitingHub, ConnectEvent::HubReply { reply }) => match reply {
                Some(m) => match m.payload {
                    Payload::PeerInfo { peer_info } => {
                        self.state = ConnectState::PausingBeforeRegister {
                            relay_addr: peer_info.addr,
                            relay_name: peer_info.username,
                        };
                        ConnectAction::Sleep { millis: 2000 }
                    },
                    Payload::NoRelayAvailable => {
                        self.state = ConnectState::PausingBeforeRetry;
                        ConnectAction::Sleep { millis: 10000 }
                    },
                    _ => {
                        self.state = ConnectState::Done;
                        ConnectAction::Failed { why: ConnectFailure::UnexpectedReply }
                    },
                },
                None => {
                    self.state = ConnectState::Done;
                    ConnectAction::Failed { why: ConnectFailure::HubClosed }
                },
            },
            (ConnectState::PausingBeforeRegister { relay_addr, relay_name }, ConnectEvent::Resume { now }) => {
                let id = new_msg_id(ids);
                let msg = new_message(
                    id,
                    self.public_addr,
                    self.name.clone(),
                    relay_addr,
                    relay_name.clone(),
                    now,
                    Payload::Register { verifying_key: self.verifying_key },
                );
                self.state = ConnectState::AwaitingAck { relay_addr, relay_name };
                ConnectAction::Register { msg, to: relay_addr }
            },
            (ConnectState::AwaitingAck { relay_addr, relay_name }, ConnectEvent::AckResult { acked }) => {
                self.state = ConnectState::Done;
                if acked {
                    ConnectAction::Connected { relay_addr, relay_name }
                } else {
                    ConnectAction::Failed { why: ConnectFailure::NoAck }
                }
            },
            (state, _) => {
                self.state = state;
                ConnectAction::Ignore
            },
        }
    }
}

/// Whether the event is the hub offering the relay at `relay_addr` named
/// `relay_name`.
pub open spec fn is_offer_of(event: ConnectEventView, relay_addr: NetAddr, relay_name: Seq<char>) -> bool {
    match event {
        ConnectEventView::HubReply { reply: Some(m) } => match m.payload {
            PayloadView::PeerInfo { peer_info } => peer_info.addr == relay_addr && peer_info.username == relay_name,
            _ => false,
        },
        _ => false,
    }
}

/// One step of finding a relay: a step that ends connected comes from
/// awaiting that relay's acknowledgement and receiving it; the wait for an
/// acknowledgement only starts from a pause for that relay; and that pause
/// only starts on the hub's offer of that relay.
pub proof fn lemma_connected_only_to_offered_relay(
    public: NetAddr,
    name: Seq<char>,
    verifying_key: Seq<u8>,
    hub: NetAddr,
    state: ConnectStateView,
    id: u64,
    event: ConnectEventView,
)
    ensures
        connect_step(public, name, verifying_key, hub, state, id, event).2 matches ConnectActionView::Connected { relay_addr, relay_name } ==> state == (ConnectStateView::AwaitingAck { relay_addr, relay_name }) && event == (ConnectEventView::AckResult { acked: true }),
        connect_step(public, name, verifying_key, hub, state, id, event).0 matches ConnectStateView::AwaitingAck { relay_addr, relay_name } ==> state == (ConnectStateView::PausingBeforeRegister { relay_addr, relay_name }) || state == (ConnectStateView::AwaitingAck { relay_addr, relay_name }),
        connect_step(public, name, verifying_key, hub, state, id, event).0 matches ConnectStateView::PausingBeforeRegister { relay_addr, relay_name } ==> state == (ConnectStateView::PausingBeforeRegister { relay_addr, relay_name }) || (state == ConnectStateView::AwaitingHub && is_offer_of(event, relay_addr, relay_name)),
{
}

/// The state and next identifier of a connector started in `s0` with
/// identifier `id0`, after the first `j` events.
pub open spec fn state_after(
    public: NetAddr,
    name: Seq<char>,
    verifying_key: Seq<u8>,
    hub: NetAddr,
    s0: ConnectStateView,
    id0: u64,
    events: Seq<ConnectEventView>,
    j: nat,
) -> (ConnectStateView, u64)
    decreases j,
{
    if j == 0 {
        (s0, id0)
    } else {
        let (s, id) = state_after(public, name, verifying_key, hub, s0, id0, events, (j - 1) as nat);
        let r = connect_step(public, name, verifying_key, hub, s, id, events[j - 1]);
        (r.0, r.1)
    }
}

/// What the connector does on event `j` of a run.
pub open spec fn action_at(
    public: NetAddr,
    name: Seq<char>,
    verifying_key: Seq<u8>,
    hub: NetAddr,
    s0: ConnectStateView,
    id0: u64,
    events: Seq<ConnectEventView>,
    j: nat,
) -> ConnectActionView {
    let (s, id) = state_after(public, name, verifying_key, hub, s0, id0, events, j);
    connect_step(public, name, verifying_key, hub, s, id, events[j as int]).2
}

/// Throughout a run from `Idle`, a connector waits before registering, or
/// waits for an acknowledgement, only for a relay that the hub offered
/// earlier in the run.
proof fn lemma_waits_only_for_offered_relays(
    public: NetAddr,
    name: Seq<char>,
    verifying_key: Seq<u8>,
    hub: NetAddr,
    id0: u64,
    events: Seq<ConnectEventView>,
    j: nat,
)
    requires
        j <= events.len(),
    ensures
        ({
            let s = state_after(public, name, verifying_key, hub, ConnectStateView::Idle, id0, events, j).0;
            (s matches ConnectStateView::PausingBeforeRegister { relay_addr, relay_name } ==> exists|i: int|
                0 <= i < j && #[trigger] is_offer_of(events[i], relay_addr, relay_name))
                && (s matches ConnectStateView::AwaitingAck { relay_addr, relay_name } ==> exists|i: int|
                0 <= i < j && #[trigger] is_offer_of(events[i], relay_addr, relay_name))
        }),
    decreases j,
{
    if j > 0 {
        lemma_waits_only_for_offered_relays(public, name, verifying_key, hub, id0, events, (j - 1) as nat);
        let (s, id) = state_after(public, name, verifying_key, hub, ConnectStateView::Idle, id0, events, (j - 1) as nat);
        lemma_connected_only_to_offered_relay(public, name, verifying_key, hub, s, id, events[j - 1]);
    }
}

/// Over a whole run from `Idle`, a client is connected only to a relay
/// that the hub offered earlier in the run and that acknowledged the
/// registration: the event on which it connects is that acknowledgement.
pub proof fn lemma_run_connects_only_to_offered_relay(
    public: NetAddr,
    name: Seq<char>,
    verifying_key: Seq<u8>,
    hub: NetAddr,
    id0: u64,
    events: Seq<ConnectEventView>,
    k: nat,
)
    requires
        k < events.len(),
    ensures
        action_at(public, name, verifying_key, hub, ConnectStateView::Idle, id0, events, k) matches ConnectActionView::Connected { relay_addr, relay_name } ==> events[k as int] == (ConnectEventView::AckResult { acked: true })
            && exists|i: int| 0 <= i < k && #[trigger] is_offer_of(events[i], relay_addr, relay_name),
{
    lemma_waits_only_for_offered_relays(public, name, verifying_key, hub, id0, events, k);
    let (s, id) = state_after(public, name, verifying_key, hub, ConnectStateView::Idle, id0, events, k);
    lemma_connected_only_to_offered_relay(public, name, verifying_key, hub, s, id, events[k as int]);
}

/// Where received messages go: acknowledgements, and only they, wake the
/// waiter of the message they answer; relay offers and refusals, and only
/// they, go to the hub channel; every other message goes to the general
/// loop.
pub proof fn lemma_route_targets(p: PayloadView)
    ensures
        route_spec(p) == Route::Hub <==> (p is PeerInfo || p is NoRelayAvailable),
        route_spec(p) is Ack <==> p is Ack,
        p matches PayloadView::Ack { reply_to } ==> route_spec(p) == (Route::Ack { reply_to }),
        route_spec(p) == Route::General <==> !(p is PeerInfo || p is NoRelayAvailable || p is Ack),
{
}

/// A typed line quits exactly when it reads `/q` once trimmed, is skipped
/// exactly when nothing is left once trimmed, and otherwise is sent as its
/// trimmed text, whatever its length.
pub proof fn lemma_input_command_meaning(line: Seq<char>)
    ensures
        input_command_spec(line) is Quit <==> trim_spec(line) == seq!['/', 'q'],
        input_command_spec(line) is Skip <==> trim_spec(line).len() == 0,
        trim_spec(line).len() > 0 && trim_spec(line) != seq!['/', 'q'] ==> input_command_spec(line)
            == (InputCommandView::Send { text: trim_spec(line) }),
{
    if trim_spec(line) == seq!['/', 'q'] {
        assert(trim_spec(line).len() == 2);
    }
}

/// Whenever a connector asks the hub for a relay (at the start or again
/// after a refusal), it then waits for the hub: an offer that answers it
/// is taken, the connector registers with that relay after its pause, and
/// the relay's acknowledgement connects it to that relay.
pub proof fn lemma_asking_hub_leads_to_offered_relay(
    public: NetAddr,
    name: Seq<char>,
    verifying_key: Seq<u8>,
    hub: NetAddr,
    state: ConnectStateView,
    id: u64,
    event: ConnectEventView,
    reply: MessageView,
    now: u64,
)
    requires
        connect_step(public, name, verifying_key, hub, state, id, event).2 is AskHub,
        reply.payload is PeerInfo,
    ensures
        ({
            let r1 = connect_step(public, name, verifying_key, hub, state, id, event);
            let relay = reply.payload->peer_info;
            let r2 = connect_step(public, name, verifying_key, hub, r1.0, r1.1, ConnectEventView::HubReply { reply: Some(reply) });
            let r3 = connect_step(public, name, verifying_key, hub, r2.0, r2.1, ConnectEventView::Resume { now });
            let r4 = connect_step(public, name, verifying_key, hub, r3.0, r3.1, ConnectEventView::AckResult { acked: true });
            &&& r1.2 matches ConnectActionView::AskHub { msg } && msg.payload is NeedRelay && msg.headers.dst_addr == hub
            &&& r2.2 == ConnectActionView::Sleep { millis: 2000 }
            &&& r3.2 matches ConnectActionView::Register { msg, to } && to == relay.addr && msg.headers.dst_addr
                == relay.addr && msg.payload == (PayloadView::Register { verifying_key })
            &&& r4.2 == (ConnectActionView::Connected { relay_addr: relay.addr, relay_name: relay.username })
        }),
{
}

/// After the hub refuses, the connector pauses 10 s and then asks the hub
/// again, so that the hub's next offer is taken.
pub proof fn lemma_refusal_then_retry(
    public: NetAddr,
    name: Seq<char>,
    verifying_key: Seq<u8>,
    hub: NetAddr,
    id: u64,
    refusal: MessageView,
    now: u64,
)
    requires
        refusal.payload is NoRelayAvailable,
    ensures
        ({
            let r1 = connect_step(public, name, verifying_key, hub, ConnectStateView::AwaitingHub, id, ConnectEventView::HubReply { reply: Some(refusal) });
            let r2 = connect_step(public, name, verifying_key, hub, r1.0, r1.1, ConnectEventView::Resume { now });
            &&& r1.2 == ConnectActionView::Sleep { millis: 10000 }
            &&& r2.2 matches ConnectActionView::AskHub { msg } && msg.payload is NeedRelay && msg.headers.dst_addr == hub
                && msg.headers.time == now
            &&& forall|reply: MessageView| #![trigger connect_step(public, name, verifying_key, hub, r2.0, r2.1, ConnectEventView::HubReply { reply: Some(reply) })]
                reply.payload is PeerInfo ==> connect_step(public, name, verifying_key, hub, r2.0, r2.1, ConnectEventView::HubReply { reply: Some(reply) }).0
                == (ConnectStateView::PausingBeforeRegister {
                    relay_addr: reply.payload->peer_info.addr,
                    relay_name: reply.payload->peer_info.username,
                })
        }),
{
}

} // verus!
