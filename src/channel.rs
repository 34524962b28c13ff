//! `chan` channels of signals, as the library uses them: made, cloned,
//! compared and sent on without blocking.

use vstd::prelude::*;

use crate::signal::Signal;

verus! {

#[verifier::external_type_specification]
#[verifier::external_body]
#[verifier::reject_recursive_types(T)]
pub struct ExSender<T>(chan::Sender<T>);

#[verifier::external_type_specification]
#[verifier::external_body]
#[verifier::reject_recursive_types(T)]
pub struct ExReceiver<T>(chan::Receiver<T>);

/// The channel that a sending half belongs to (chan numbers each channel
/// when it is made, and every clone of a half shares that number).
pub uninterp spec fn sender_channel(s: chan::Sender<Signal>) -> int;

/// The channel that a receiving half belongs to, in the same numbering.
pub uninterp spec fn receiver_channel(r: chan::Receiver<Signal>) -> int;

/// How many values the buffer of a channel holds.
pub uninterp spec fn channel_capacity(c: int) -> usize;

/// Relies on `chan::sync`: a new channel whose buffer holds `size` values,
/// as its sending and its receiving half.
#[verifier::external_body]
pub(crate) fn sync_channel(size: usize) -> (r: (chan::Sender<Signal>, chan::Receiver<Signal>))
    ensures
        sender_channel(r.0) == receiver_channel(r.1),
        channel_capacity(sender_channel(r.0)) == size,
{
    chan::sync(size)
}

/// Relies on `Sender::clone`: another handle on the same channel.
#[verifier::external_body]
pub(crate) fn sender_clone(s: &chan::Sender<Signal>) -> (r: chan::Sender<Signal>)
    ensures
        sender_channel(r) == sender_channel(*s),
{
    s.clone()
}

/// Relies on `Sender`'s `PartialEq`: whether two handles belong to one
/// channel (it compares the channels' numbers).
#[verifier::external_body]
pub(crate) fn same_channel(a: &chan::Sender<Signal>, b: &chan::Sender<Signal>) -> (r: bool)
    ensures
        r == (sender_channel(*a) == sender_channel(*b)),
{
    a == b
}

/// Relies on `chan::Select` with a single send and `try_select`: the value is
/// sent only if the channel can take it at once (room in its buffer, or a
/// receiver ready to rendezvous). Returns whether it was sent; that depends on
/// the channel's state at the time.
#[verifier::external_body]
pub(crate) fn try_send(s: &chan::Sender<Signal>, v: Signal) -> (r: bool)
{
    let mut sel = chan::Select::new();
    let handle = sel.send(s, v);
    let which = sel.try_select();
    which == Some(handle.id())
}

} // verus!
