//! The one-shot channels on which waiting checkouts are handed their connections.
//!
//! The channels are those of `futures_channel::oneshot`. What the two ends report depends on
//! what the task at the other end has done by then, so it is predicted only where the other end
//! is known to be gone. The relations below say which replies a call was given, and each can only
//! be established by making the call.

use std::future::Future;
use std::pin::Pin;
use std::task::Context;

use futures_channel::oneshot::{channel, Receiver, Sender};
use vstd::prelude::*;

verus! {

/// The sending end of a channel, opaque to the verifier.
#[verifier::external_type_specification]
#[verifier::external_body]
#[verifier::reject_recursive_types(T)]
pub struct ExSender<T>(futures_channel::oneshot::Sender<T>);

/// The receiving end of a channel, opaque to the verifier.
#[verifier::external_type_specification]
#[verifier::external_body]
#[verifier::reject_recursive_types(T)]
pub struct ExReceiver<T>(futures_channel::oneshot::Receiver<T>);

/// What a receiving end yields when the sending end is gone, opaque to the verifier. The output of
/// `Receiver`, as a `Future`, names it, so a `Receiver` cannot be used where it is not declared.
#[verifier::external_type_specification]
#[verifier::external_body]
pub struct ExCanceled(futures_channel::oneshot::Canceled);

/// The task context that a poll registers for a wake-up, opaque to the verifier.
#[verifier::external_type_specification]
#[verifier::external_body]
pub struct ExContext<'a>(std::task::Context<'a>);

/// `futures_channel::oneshot::channel` makes a fresh channel and returns its two ends. Nothing
/// is claimed of them.
pub assume_specification<T>[ futures_channel::oneshot::channel::<T> ]() -> (ends: (
    Sender<T>,
    Receiver<T>,
));

/// `Sender::is_canceled` reports whether the receiving end is gone at the moment of the call.
/// Nothing is claimed of the report, since the receiving end can go at any time.
pub assume_specification<T>[ futures_channel::oneshot::Sender::<T>::is_canceled ](
    tx: &Sender<T>,
) -> (canceled: bool);

/// `Sender::send` hands `t` to the receiving end, or gives it back if that end is gone. Claimed
/// is that what comes back is what was to be sent. Whether it comes back is left open, since it
/// depends on the other end.
pub assume_specification<T>[ futures_channel::oneshot::Sender::<T>::send ](
    tx: Sender<T>,
    t: T,
) -> (reply: Result<(), T>)
    ensures
        reply matches Err(refused) ==> refused == t,
;

/// `tx` and `rx` are the two ends that one call of `channel` returned.
pub open spec fn same_channel<T>(tx: Sender<T>, rx: Receiver<T>) -> bool {
    call_ensures(channel::<T>, (), (tx, rx))
}

/// `tx` can report that its receiving end is gone, or that it is not.
pub open spec fn reports_canceled<T>(tx: Sender<T>, canceled: bool) -> bool {
    call_ensures(Sender::<T>::is_canceled, (&tx,), canceled)
}

/// Sending `value` on `tx` can be answered with `reply`.
pub open spec fn send_replies<T>(tx: Sender<T>, value: T, reply: Result<(), T>) -> bool {
    call_ensures(Sender::<T>::send, (tx, value), reply)
}

/// What a receiving end has to say when it is polled.
pub enum Polled<T> {
    /// Nothing yet. The polling task will be woken.
    Pending,
    /// The value that was sent.
    Value(T),
    /// The sending end is gone, and nothing was sent.
    Canceled,
}

/// What is left of a receiving end that was polled: the end itself if there is something to wait
/// for, and nothing once it has said its last.
pub open spec fn left_by_poll<T>(rx: Receiver<T>, reply: Polled<T>) -> Option<Receiver<T>> {
    if reply is Pending {
        Some(rx)
    } else {
        None
    }
}

/// `futures_channel::oneshot::Receiver::poll`, the method of `Future`, reports the value that
/// was sent, that none will come, or that the polling task is to wait. To poll is to take the
/// value out, so the receiving end is given back only if it is to be polled again, and is dropped
/// otherwise. Claimed is that the receiving end given back is the one that was polled, that a
/// value which it yields was sent on its channel by a `send` that is answered with `Ok`, and that
/// the context stays as it is. Which of the three is reported is left open, since it depends on
/// the other end.
#[verifier::external_body]
fn poll_receiver<T>(rx: Receiver<T>, cx: &mut Context<'_>) -> (polled: (
    Option<Receiver<T>>,
    Polled<T>,
))
    ensures
        polled.0 == left_by_poll(rx, polled.1),
        polled.1 matches Polled::Value(value) ==> exists|tx: Sender<T>| #[trigger]
            same_channel(tx, rx) && send_replies(tx, value, Ok(())),
        *final(cx) == *old(cx),
{
    let mut rx = rx;
    match Pin::new(&mut rx).poll(cx) {
        std::task::Poll::Pending => (Some(rx), Polled::Pending),
        std::task::Poll::Ready(Ok(value)) => (None, Polled::Value(value)),
        std::task::Poll::Ready(Err(_)) => (None, Polled::Canceled),
    }
}

/// Polling `rx` on behalf of the task that `context` stands for can be answered with `reply`.
pub closed spec fn poll_replies<T>(
    rx: Receiver<T>,
    context: Context<'_>,
    reply: Polled<T>,
) -> bool {
    exists|cx: &mut Context<'_>| *cx == context && #[trigger]
        call_ensures(poll_receiver::<T>, (rx, cx), (left_by_poll(rx, reply), reply))
}

/// A reply that polling is said to give was given by the poll of a receiving end, asked for the
/// task behind `context`.
proof fn lemma_poll_is_asked<T>(rx: Receiver<T>, context: Context<'_>, reply: Polled<T>)
    requires
        poll_replies(rx, context, reply),
    ensures
        exists|cx: &mut Context<'_>, left: Option<Receiver<T>>| *cx == context && #[trigger]
            call_ensures(poll_receiver::<T>, (rx, cx), (left, reply)),
{
}

/// A value that a receiving end yields was sent on its channel, and the sending end was told so.
pub proof fn lemma_value_was_sent<T>(rx: Receiver<T>, context: Context<'_>, value: T)
    requires
        poll_replies(rx, context, Polled::Value(value)),
    ensures
        exists|tx: Sender<T>| #[trigger]
            same_channel(tx, rx) && send_replies(tx, value, Ok(())),
{
}

/// Polls a receiving end once on behalf of the task that `cx` stands for. It is given back if it
/// is to be polled again.
pub fn poll_once<T>(rx: Receiver<T>, cx: &mut Context<'_>) -> (polled: (
    Option<Receiver<T>>,
    Polled<T>,
))
    ensures
        polled.0 == left_by_poll(rx, polled.1),
        poll_replies(rx, *old(cx), polled.1),
        *final(cx) == *old(cx),
{
    poll_receiver(rx, cx)
}

/// `futures_channel::oneshot::channel` makes a fresh channel, and `Receiver::poll` registers the
/// task that `cx` stands for on its receiving end. Claimed is that the two ends belong together,
/// that this poll is answered with `Pending`, since the sending end has neither sent nor gone, and
/// that the context stays as it is.
#[verifier::external_body]
pub(crate) fn waiting_channel<T>(cx: &mut Context<'_>) -> (ends: (Sender<T>, Receiver<T>))
    ensures
        same_channel(ends.0, ends.1),
        poll_replies(ends.1, *old(cx), Polled::Pending),
        *final(cx) == *old(cx),
{
    let (tx, mut rx) = channel();
    let _ = Pin::new(&mut rx).poll(cx);
    (tx, rx)
}

/// Proof at run time that a receiving end was dropped. Only [`hang_up`] makes one, and nothing is
/// known of it but which receiving end it was made for. It is opaque to the verifier, so that no
/// two of them can be taken for each other.
#[verifier::external_body]
pub struct Gone {
    done: (),
}

/// Drops a receiving end, which runs the `Drop` of `futures_channel::oneshot::Receiver`. Nothing
/// is claimed of what is returned: it stands for the drop being done.
#[verifier::external_body]
fn drop_receiver<T>(rx: Receiver<T>) -> (gone: Gone) {
    drop(rx);
    Gone { done: () }
}

/// `gone` was made by dropping `rx`.
pub closed spec fn hung_up<T>(rx: Receiver<T>, gone: Gone) -> bool {
    call_ensures(drop_receiver::<T>, (rx,), gone)
}

/// What stands for a receiving end being dropped was made by dropping it.
proof fn lemma_hang_up_is_done<T>(rx: Receiver<T>, gone: Gone)
    requires
        hung_up(rx, gone),
    ensures
        call_ensures(drop_receiver::<T>, (rx,), gone),
{
}

/// Drops a receiving end.
pub fn hang_up<T>(rx: Receiver<T>) -> (gone: Gone)
    ensures
        hung_up(rx, gone),
{
    drop_receiver(rx)
}

/// `futures_channel::oneshot::Sender::is_canceled`, asked after a receiving end was dropped.
/// Claimed is that the report is one of `is_canceled`, and that it is `true` if the receiving end
/// that was dropped is the other end of this channel: dropping it raises the flag that
/// `is_canceled` reads, and nothing lowers that flag.
#[verifier::external_body]
pub(crate) fn is_canceled_after<T>(tx: &Sender<T>, _gone: &Gone) -> (canceled: bool)
    ensures
        reports_canceled(*tx, canceled),
        forall|rx: Receiver<T>| #[trigger]
            hung_up(rx, *_gone) && same_channel(*tx, rx) ==> canceled,
{
    tx.is_canceled()
}

} // verus!
