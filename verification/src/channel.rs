//! One-shot signal channels (tokio's `oneshot`), each half tagged with the
//! identity its owner gives the channel, and the evidence that a channel
//! was signalled or closed. Only this module makes such values.

use vstd::prelude::*;
use tokio::sync::oneshot::{Receiver, Sender};

verus! {

#[verifier::external_type_specification]
#[verifier::external_body]
#[verifier::reject_recursive_types(T)]
pub struct ExOneshotSender<T>(Sender<T>);

#[verifier::external_type_specification]
#[verifier::external_body]
#[verifier::reject_recursive_types(T)]
pub struct ExOneshotReceiver<T>(Receiver<T>);

/// What a receiver yields when its sender is gone; a receiver's type
/// names it.
#[verifier::external_type_specification]
#[verifier::external_body]
pub struct ExOneshotRecvError(tokio::sync::oneshot::error::RecvError);

/// The sending half of a signal channel.
pub struct SignalSender {
    tx: Sender<()>,
    chan: Ghost<int>,
}

/// The receiving half of a signal channel.
pub struct SignalReceiver {
    rx: Receiver<()>,
    chan: Ghost<int>,
}

/// The evidence that the channel `chan` was signalled: its sender sent
/// `()`, which its receiver reads as `Ok(())` if it is still waiting.
pub struct Signalled {
    chan: Ghost<int>,
}

/// The evidence that the channel `chan` was closed unsignalled: its
/// sender was dropped, so its receiver reads `Err(RecvError)`.
pub struct Closed {
    chan: Ghost<int>,
}

impl Closed {
    /// The channel that was closed.
    pub closed spec fn chan(&self) -> int {
        self.chan@
    }
}

impl SignalSender {
    /// The channel this half belongs to.
    pub closed spec fn chan(&self) -> int {
        self.chan@
    }
}

impl SignalReceiver {
    /// The channel this half belongs to.
    pub closed spec fn chan(&self) -> int {
        self.chan@
    }

    /// The tokio receiver, to be awaited.
    pub fn receiver(self) -> Receiver<()> {
        self.rx
    }
}

impl Signalled {
    /// The channel that was signalled.
    pub closed spec fn chan(&self) -> int {
        self.chan@
    }
}

/// A new one-shot channel (`tokio::sync::oneshot::channel`): a sender
/// and the receiver of the same channel.
#[verifier::external_body]
fn oneshot_pair() -> (pair: (Sender<()>, Receiver<()>)) {
    tokio::sync::oneshot::channel()
}

/// Sends `()` on a one-shot channel (`Sender::send`): its receiver reads
/// `Ok(())`, unless it was dropped before (it gave up waiting), in which
/// case the value is lost. `send` never panics.
#[verifier::external_body]
fn send_unit(tx: Sender<()>) {
    let _ = tx.send(());
}

/// Drops the sender of a one-shot channel (`Sender`'s `Drop`): its
/// receiver then reads `Err(RecvError)`, unless a value was sent before.
#[verifier::external_body]
fn drop_sender(tx: Sender<()>) {
    drop(tx);
}

/// A new signal channel, both halves tagged `id`.
pub(crate) fn signal_channel(id: Ghost<int>) -> (pair: (SignalSender, SignalReceiver))
    ensures
        pair.0.chan() == id@,
        pair.1.chan() == id@,
{
    let (tx, rx) = oneshot_pair();
    (SignalSender { tx, chan: id }, SignalReceiver { rx, chan: id })
}

/// Signals a channel: its receiver reads `Ok(())` if still waiting.
pub(crate) fn signal(tx: SignalSender) -> (s: Signalled)
    ensures
        s.chan() == tx.chan(),
{
    let SignalSender { tx, chan } = tx;
    send_unit(tx);
    Signalled { chan }
}

/// Closes a channel without signalling it: its receiver reads
/// `Err(RecvError)`.
pub(crate) fn close(tx: SignalSender) -> (c: Closed)
    ensures
        c.chan() == tx.chan(),
{
    let SignalSender { tx, chan } = tx;
    drop_sender(tx);
    Closed { chan }
}

} // verus!
