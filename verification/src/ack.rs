//! Waiting for acknowledgements: a sender registers the identifier of a
//! message before sending it, and the acknowledgement that answers it
//! signals the channel whose receiver the waiting task holds.

use vstd::prelude::*;
use std::collections::HashMap;
use crate::channel::{Closed, SignalReceiver, SignalSender, Signalled, close, signal, signal_channel};

verus! {

broadcast use vstd::std_specs::hash::group_hash_axioms;

/// The acknowledgements a node waits for, by message identifier, and the
/// number of channels it has opened so far (each channel is tagged with
/// the number of channels opened before it).
pub struct AckWaiter {
    pending: HashMap<u64, SignalSender>,
    opened: Ghost<int>,
}

impl View for AckWaiter {
    type V = Map<u64, int>;

    /// For each message whose acknowledgement is awaited, the channel its
    /// acknowledgement will signal.
    closed spec fn view(&self) -> Map<u64, int> {
        self.pending@.map_values(|tx: SignalSender| tx.chan())
    }
}

impl AckWaiter {
    /// The number of channels opened so far: every channel of this waiter
    /// is tagged with a smaller number, and the next one with this one.
    pub closed spec fn opened(&self) -> int {
        self.opened@
    }

    /// The awaited channels were all opened by this waiter.
    pub closed spec fn wf(&self) -> bool {
        &&& 0 <= self.opened@
        &&& forall|id: u64| #[trigger] self@.contains_key(id) ==> 0 <= self@[id] < self.opened@
    }

    /// Waits for nothing.
    pub fn new() -> (w: AckWaiter)
        ensures
            w.wf(),
            w@ == Map::<u64, int>::empty(),
            w.opened() == 0,
    {
        let w = AckWaiter { pending: HashMap::new(), opened: Ghost(0) };
        assert(w@ =~= Map::<u64, int>::empty());
        w
    }

    /// Starts waiting for the acknowledgement of `msg_id` (before the
    /// message is sent) on a new channel, and gives the receiver that the
    /// acknowledgement will signal. A second registration of the same
    /// identifier replaces the first: the earlier channel is closed, so its
    /// receiver reads an error and is never signalled.
    pub fn register(&mut self, msg_id: u64) -> (r: (SignalReceiver, Option<Closed>))
        requires
            old(self).wf(),
        ensures
            final(self).wf(),
            registered_as(*old(self), *final(self), msg_id, r.0, r.1),
    {
        let ghost fresh = self.opened@;
        let (tx, rx) = signal_channel(Ghost(fresh));
        self.opened = Ghost(fresh + 1);
        let replaced = match self.pending.insert(msg_id, tx) {
            Some(old_tx) => Some(close(old_tx)),
            None => None,
        };
        assert(self@ =~= old(self)@.insert(msg_id, rx.chan()));
        (rx, replaced)
    }

    /// Handles an acknowledgement of `reply_to`: if it was awaited, the
    /// channel registered for it is signalled (the evidence is returned)
    /// and it is no longer awaited; an unexpected acknowledgement changes
    /// nothing and signals nothing.
    pub fn resolve(&mut self, reply_to: u64) -> (r: Option<Signalled>)
        requires
            old(self).wf(),
        ensures
            final(self).wf(),
            resolved_as(*old(self), *final(self), reply_to, r),
    {
        let r = match self.pending.remove(&reply_to) {
            Some(tx) => Some(signal(tx)),
            None => None,
        };
        assert(self@ =~= old(self)@.remove(reply_to));
        r
    }

    /// Whether the acknowledgement of `msg_id` is awaited.
    pub fn is_pending(&self, msg_id: u64) -> (b: bool)
        ensures
            b == self@.contains_key(msg_id),
    {
        self.pending.contains_key(&msg_id)
    }
}

/// `after` is `before` once `msg_id` was registered, handing out `rx` and
/// closing `replaced`: `rx` belongs to a channel that was never opened
/// before, which the acknowledgement of `msg_id` will now signal, and the
/// channel awaited before for `msg_id`, if any, is the one closed.
pub open spec fn registered_as(
    before: AckWaiter,
    after: AckWaiter,
    msg_id: u64,
    rx: SignalReceiver,
    replaced: Option<Closed>,
) -> bool {
    &&& rx.chan() == before.opened()
    &&& after.opened() == before.opened() + 1
    &&& after@ == before@.insert(msg_id, rx.chan())
    &&& (replaced is Some <==> before@.contains_key(msg_id))
    &&& (replaced matches Some(c) ==> c.chan() == before@[msg_id])
}

/// `after` is `before` once an acknowledgement of `reply_to` was handled,
/// with result `r`: the channel awaited for `reply_to`, if any, is the one
/// signalled, and it is no longer awaited.
pub open spec fn resolved_as(before: AckWaiter, after: AckWaiter, reply_to: u64, r: Option<Signalled>) -> bool {
    &&& after.opened() == before.opened()
    &&& after@ == before@.remove(reply_to)
    &&& (r is Some <==> before@.contains_key(reply_to))
    &&& (r matches Some(s) ==> s.chan() == before@[reply_to])
}

/// An acknowledgement answers a registration once, on the channel of that
/// registration: after registering `id`, resolving `id` signals the
/// receiver handed out, and a second acknowledgement of `id` signals
/// nothing; other registrations are untouched.
pub proof fn lemma_ack_resolves_once(
    w0: AckWaiter,
    w1: AckWaiter,
    w2: AckWaiter,
    w3: AckWaiter,
    id: u64,
    rx: SignalReceiver,
    replaced: Option<Closed>,
    first: Option<Signalled>,
    second: Option<Signalled>,
)
    requires
        registered_as(w0, w1, id, rx, replaced),
        resolved_as(w1, w2, id, first),
        resolved_as(w2, w3, id, second),
    ensures
        first matches Some(s) && s.chan() == rx.chan(),
        second is None,
        w3@ == w0@.remove(id),
{
    assert(w3@ =~= w0@.remove(id));
}

/// Registering the same identifier again hands out a different channel,
/// closes the first one, and the acknowledgement then signals only the
/// second: the first receiver is never signalled.
pub proof fn lemma_register_again_replaces(
    w0: AckWaiter,
    w1: AckWaiter,
    w2: AckWaiter,
    w3: AckWaiter,
    id: u64,
    rx1: SignalReceiver,
    replaced1: Option<Closed>,
    rx2: SignalReceiver,
    replaced2: Option<Closed>,
    r: Option<Signalled>,
)
    requires
        registered_as(w0, w1, id, rx1, replaced1),
        registered_as(w1, w2, id, rx2, replaced2),
        resolved_as(w2, w3, id, r),
    ensures
        rx1.chan() != rx2.chan(),
        replaced2 matches Some(c) && c.chan() == rx1.chan(),
        r matches Some(s) && s.chan() == rx2.chan() && s.chan() != rx1.chan(),
{
}

} // verus!
