//! Operating-system signals delivered as values on channels.
//!
//! Signals of the catalog are blocked for asynchronous delivery and waited
//! for synchronously by one dispatcher; each received signal is handed, by a
//! non-blocking send, to every channel subscribed to it. This crate holds the
//! decisions: the catalog and its numbers, the masks to block, and the
//! registry of subscriptions with its fan-out.

mod bits;
mod channel;
mod registry;
mod signal;
mod sigset;
mod startup;

pub use registry::{
    after_subscriptions, handed, holds_channel, index_of, lemma_notified_channel_receives_listed,
    lemma_other_channels_unaffected, lemma_other_signals_unaffected, lemma_subscribe_idempotent,
    lemma_subscriber_receives, lemma_subscriptions_persist, lemma_two_channels_both_receive,
    lemma_unsubscribed_signal_not_received, notified, notified_all, receives, well_formed,
    Registry, Subscriptions, NOTIFY_BUFFER,
};
pub use channel::{channel_capacity, receiver_channel, sender_channel};
pub use signal::{
    catalog, console_event_signal, is_catalog_number, lemma_signal_number_injective, signal_number,
    Signal,
};
pub use sigset::{numbers_of, subscribable_numbers, SigSet, SigSetError, MAX_SIGNAL};
pub use startup::{
    lemma_startup_plan_masks, run_steps, startup_plan, step_masks, Masks, StartupStep,
};

use vstd::prelude::*;

verus! {

/// The mask that blocking `signals` adds to the calling thread's mask:
/// exactly their numbers. Blocking creates no subscription, so a blocked
/// signal that nobody subscribed to is held back and handed to no channel.
pub fn block(signals: &[Signal]) -> (r: SigSet)
    ensures
        r@ == numbers_of(signals@),
{
    SigSet::of_signals(signals)
}

/// The mask that blocks every signal of the catalog.
pub fn block_all_subscribable() -> (r: SigSet)
    ensures
        r@ == subscribable_numbers(),
{
    SigSet::subscribable()
}

} // verus!
