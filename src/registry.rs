//! The subscription registry: which channel is subscribed to which signals,
//! and the fan-out of a received signal to its subscribers.

use vstd::prelude::*;

use crate::bits::{bits_contains, bits_insert, bits_new, bits_of};
use crate::channel::{
    receiver_channel, same_channel, sender_channel, sender_clone, sync_channel, try_send,
    channel_capacity,
};
use crate::sigset::SigSet;
use crate::signal::{console_event_signal, is_catalog_number, lemma_signal_number_injective, signal_number, Signal};

verus! {

/// One channel and the signals it is subscribed to, as signal numbers.
struct Subscription {
    sender: chan::Sender<Signal>,
    signals: bit_set::BitSet,
}

impl Subscription {
    spec fn signal_set(&self) -> Set<Signal> {
        Set::new(|s: Signal| bits_of(self.signals).contains(signal_number(s) as usize))
    }
}

/// Subscriptions of channels to signals, one entry per channel. Entries are
/// only ever added or widened: a subscription lasts as long as the registry,
/// which holds a handle on each subscribed channel.
pub struct Registry {
    entries: Vec<Subscription>,
}

/// A registry as the channel of each entry, and the signals of each entry.
pub type Subscriptions = (Seq<int>, Seq<Set<Signal>>);

/// One entry per channel, and a signal set for each entry.
pub open spec fn well_formed(m: Subscriptions) -> bool {
    &&& m.0.len() == m.1.len()
    &&& forall|i: int, j: int| 0 <= i < j < m.0.len() ==> m.0[i] != m.0[j]
}

/// Whether some entry of `chs` is channel `c`.
pub open spec fn holds_channel(chs: Seq<int>, c: int) -> bool {
    exists|i: int| 0 <= i < chs.len() && chs[i] == c
}

/// The entry of channel `c`, or `chs.len()` where there is none.
pub open spec fn index_of(chs: Seq<int>, c: int) -> int {
    if holds_channel(chs, c) {
        choose|i: int| 0 <= i < chs.len() && chs[i] == c
    } else {
        chs.len() as int
    }
}

/// The registry `m` after subscribing channel `c` to `s`: the entry of `c`
/// gains `s`; a channel without an entry gets one holding `s` alone.
pub open spec fn notified(m: Subscriptions, c: int, s: Signal) -> Subscriptions {
    let i = index_of(m.0, c);
    if i < m.0.len() {
        (m.0, m.1.update(i, m.1[i].insert(s)))
    } else {
        (m.0.push(c), m.1.push(set![s]))
    }
}

/// The registry `m` after subscribing channel `c` to each of `signals`, in
/// order.
pub open spec fn notified_all(m: Subscriptions, c: int, signals: Seq<Signal>) -> Subscriptions
    decreases signals.len(),
{
    if signals.len() == 0 {
        m
    } else {
        notified(notified_all(m, c, signals.drop_last()), c, signals.last())
    }
}

/// The registry `m` after the subscriptions `ops`, in order: each names a
/// channel and the signal it is subscribed to.
pub open spec fn after_subscriptions(m: Subscriptions, ops: Seq<(int, Signal)>) -> Subscriptions
    decreases ops.len(),
{
    if ops.len() == 0 {
        m
    } else {
        after_subscriptions(notified(m, ops[0].0, ops[0].1), ops.drop_first())
    }
}

/// Whether channel `c` is handed signal `s` when it arrives.
pub open spec fn handed(m: Subscriptions, c: int, s: Signal) -> bool {
    exists|i: int| 0 <= i < m.0.len() && m.0[i] == c && #[trigger] m.1[i].contains(s)
}

/// Whether entry `i` of the signal sets `v` is handed signal `s`.
pub open spec fn receives(v: Seq<Set<Signal>>, i: int, s: Signal) -> bool {
    0 <= i < v.len() && v[i].contains(s)
}

/// How many signals the channel that `Registry::notify` makes can hold
/// before further ones are dropped.
pub const NOTIFY_BUFFER: usize = 100;

impl View for Registry {
    type V = Subscriptions;

    closed spec fn view(&self) -> Subscriptions {
        (
            self.entries@.map_values(|e: Subscription| sender_channel(e.sender)),
            self.entries@.map_values(|e: Subscription| e.signal_set()),
        )
    }
}

impl Registry {
    /// A registry without subscriptions.
    pub fn new() -> (r: Registry)
        ensures
            r@ == (Seq::<int>::empty(), Seq::<Set<Signal>>::empty()),
            well_formed(r@),
    {
        let r = Registry { entries: Vec::new() };
        assert(r@.0 =~= Seq::<int>::empty());
        assert(r@.1 =~= Seq::<Set<Signal>>::empty());
        r
    }

    /// The number of subscribed channels.
    pub fn len(&self) -> (r: usize)
        ensures
            r == self@.0.len(),
            r == self@.1.len(),
    {
        self.entries.len()
    }

    /// Whether entry `i` is subscribed to `s`.
    pub fn is_subscribed(&self, i: usize, s: Signal) -> (r: bool)
        requires
            i < self@.1.len(),
        ensures
            r == self@.1[i as int].contains(s),
    {
        bits_contains(&self.entries[i].signals, s.as_sig() as usize)
    }

    /// The entry that holds `chan`'s channel, if one does.
    pub fn position(&self, chan: &chan::Sender<Signal>) -> (r: Option<usize>)
        ensures
            r matches Some(i) ==> i < self@.0.len() && self@.0[i as int] == sender_channel(*chan),
            r is None ==> !holds_channel(self@.0, sender_channel(*chan)),
    {
        let mut i: usize = 0;
        while i < self.entries.len()
            invariant
                i <= self.entries@.len(),
                forall|k: int| 0 <= k < i ==> self@.0[k] != sender_channel(*chan),
            decreases self.entries@.len() - i,
        {
            if same_channel(&self.entries[i].sender, chan) {
                return Some(i);
            }
            i = i + 1;
        }
        None
    }

    /// Subscribes entry `i`, which is `chan`'s, to `s`; where `chan` has no
    /// entry (`i` is then the number of entries), appends one for it.
    fn subscribe_at(&mut self, i: usize, chan: &chan::Sender<Signal>, s: Signal)
        requires
            well_formed(old(self)@),
            i == index_of(old(self)@.0, sender_channel(*chan)),
        ensures
            final(self)@ == notified(old(self)@, sender_channel(*chan), s),
    {
        let sig = s.as_sig();
        if i < self.entries.len() {
            let mut entry = self.entries.remove(i);
            let ghost before = entry.signal_set();
            bits_insert(&mut entry.signals, sig as usize);
            proof {
                lemma_insert_signal(before, entry.signal_set(), s);
            }
            self.entries.insert(i, entry);
            proof {
                assert(self@.0 =~= notified(old(self)@, sender_channel(*chan), s).0);
                assert(self@.1 =~= notified(old(self)@, sender_channel(*chan), s).1);
            }
        } else {
            let mut signals = bits_new();
            bits_insert(&mut signals, sig as usize);
            let entry = Subscription { sender: sender_clone(chan), signals };
            proof {
                lemma_insert_signal(Set::empty(), entry.signal_set(), s);
                assert(Set::<Signal>::empty().insert(s) =~= set![s]);
            }
            self.entries.push(entry);
            proof {
                assert(self@.0 =~= notified(old(self)@, sender_channel(*chan), s).0);
                assert(self@.1 =~= notified(old(self)@, sender_channel(*chan), s).1);
            }
        }
    }

    /// Subscribes `chan` to `s`: the entry that holds `chan`'s channel gains
    /// `s`, and a channel not held yet gets an entry of its own, holding a
    /// clone of `chan`. Subscribing twice to one signal changes nothing more.
    pub fn notify_on(&mut self, chan: &chan::Sender<Signal>, s: Signal)
        requires
            well_formed(old(self)@),
        ensures
            final(self)@ == notified(old(self)@, sender_channel(*chan), s),
            well_formed(final(self)@),
    {
        let c = Ghost(sender_channel(*chan));
        let i = match self.position(chan) {
            Some(i) => {
                assert(i as int == index_of(self@.0, c@)) by {
                    assert(holds_channel(self@.0, c@));
                    let j = index_of(self@.0, c@);
                    assert(self@.0[j] == c@);
                }
                i
            },
            None => self.entries.len(),
        };
        self.subscribe_at(i, chan, s);
        proof {
            lemma_subscriber_receives(old(self)@, c@, s);
        }
    }

    /// Makes a new channel, with a buffer of `NOTIFY_BUFFER` values, and
    /// subscribes it to each of `signals`; returns its receiving half. While
    /// the registry lives it holds the channel open. With no signals listed
    /// nothing is subscribed, the registry keeps no handle, and the channel
    /// is closed once its sending half is dropped here.
    pub fn notify(&mut self, signals: &[Signal]) -> (r: chan::Receiver<Signal>)
        requires
            well_formed(old(self)@),
        ensures
            final(self)@ == notified_all(old(self)@, receiver_channel(r), signals@),
            well_formed(final(self)@),
            channel_capacity(receiver_channel(r)) == NOTIFY_BUFFER,
    {
        let (sender, receiver) = sync_channel(NOTIFY_BUFFER);
        let mut k: usize = 0;
        while k < signals.len()
            invariant
                k <= signals@.len(),
                sender_channel(sender) == receiver_channel(receiver),
                self@ == notified_all(old(self)@, sender_channel(sender), signals@.subrange(0, k as int)),
                well_formed(self@),
            decreases signals@.len() - k,
        {
            let s = signals[k];
            self.notify_on(&sender, s);
            proof {
                let next = signals@.subrange(0, k + 1);
                assert(next.drop_last() =~= signals@.subrange(0, k as int));
                assert(next.last() == s);
            }
            k = k + 1;
        }
        proof {
            assert(signals@.subrange(0, signals@.len() as int) =~= signals@);
        }
        receiver
    }

    /// The entries subscribed to `s`, in increasing order.
    pub fn recipients(&self, s: Signal) -> (r: Vec<usize>)
        ensures
            forall|i: usize| r@.contains(i) <==> receives(self@.1, i as int, s),
            forall|a: int, b: int| 0 <= a < b < r@.len() ==> r@[a] < r@[b],
            forall|a: int| 0 <= a < r@.len() ==> r@[a] < self@.1.len(),
    {
        let mut r: Vec<usize> = Vec::new();
        let mut i: usize = 0;
        while i < self.entries.len()
            invariant
                i <= self@.1.len(),
                self@.1.len() == self.entries@.len(),
                forall|k: usize| r@.contains(k) <==> (k < i && receives(self@.1, k as int, s)),
                forall|a: int, b: int| 0 <= a < b < r@.len() ==> r@[a] < r@[b],
                forall|a: int| 0 <= a < r@.len() ==> r@[a] < i,
            decreases self.entries@.len() - i,
        {
            let ghost before = r@;
            if self.is_subscribed(i, s) {
                r.push(i);
                proof {
                    assert(r@ == before.push(i));
                    lemma_push_contains(before, i);
                    assert(r@[before.len() as int] == i);
                }
            } else {
                assert(!before.contains(i)) by {
                    if before.contains(i) {
                        let a = choose|a: int| 0 <= a < before.len() && before[a] == i;
                    }
                }
            }
            assert forall|k: usize| r@.contains(k) <==> (k < i + 1 && receives(self@.1, k as int, s)) by {
                if r@.contains(k) {
                    let a = choose|a: int| 0 <= a < r@.len() && r@[a] == k;
                    assert(r@[a] < i + 1);
                }
                if k < i {
                    assert(r@.contains(k) <==> before.contains(k));
                } else if k == i {
                    assert(receives(self@.1, k as int, s) ==> r@.contains(k));
                }
            }
            i = i + 1;
        }
        r
    }

    /// Decides a console control event, where the platform delivers signals
    /// by callback rather than by a synchronous wait. A signal that is not in
    /// `blocked` is declined (`None`), and the platform's default handling
    /// applies; a blocked one is handed to its subscribers as `dispatch`
    /// does, and `Some` holds the entries that took it.
    pub fn handle_console_event(&self, blocked: &SigSet, code: u32) -> (r: Option<Vec<usize>>)
        requires
            well_formed(self@),
            code <= 2,
        ensures
            r is Some <==> blocked@.contains(signal_number(console_event_signal(code))),
            r matches Some(d) ==> forall|a: int| 0 <= a < d@.len()
                ==> #[trigger] receives(self@.1, d@[a] as int, console_event_signal(code)),
            r matches Some(d) ==> forall|a: int, b: int| 0 <= a < b < d@.len() ==> d@[a] < d@[b],
            r matches Some(d) ==> forall|a: int, b: int| 0 <= a < b < d@.len()
                ==> self@.0[d@[a] as int] != self@.0[d@[b] as int],
    {
        let s = Signal::from_console_event(code);
        if !blocked.contains(s.as_sig()) {
            return None;
        }
        proof {
            lemma_signal_number_injective(s, s);
        }
        Some(self.dispatch(s.as_sig()))
    }

    /// Hands signal number `sig` to every entry subscribed to it, by a
    /// send that never blocks: an entry whose channel cannot take the value at
    /// once misses it. Returns the entries that took it, in increasing order;
    /// each was subscribed to the signal, and each channel is handed it at
    /// most once. The registry is left as it was, so a later signal is handed
    /// out the same way whatever was dropped now.
    pub fn dispatch(&self, sig: i32) -> (r: Vec<usize>)
        requires
            well_formed(self@),
            is_catalog_number(sig),
        ensures
            forall|a: int, t: Signal| 0 <= a < r@.len() && signal_number(t) == sig ==> #[trigger] receives(self@.1, r@[a] as int, t),
            forall|a: int, b: int| 0 <= a < b < r@.len() ==> r@[a] < r@[b],
            forall|a: int, b: int| 0 <= a < b < r@.len() ==> self@.0[r@[a] as int] != self@.0[r@[b] as int],
    {
        let s = Signal::new(sig);
        proof {
            assert forall|t: Signal| signal_number(t) == sig implies t == s by {
                lemma_signal_number_injective(t, s);
            }
        }
        let targets = self.recipients(s);
        proof {
            assert forall|a: int| 0 <= a < targets@.len() implies receives(self@.1, targets@[a] as int, s) by {
                assert(targets@.contains(targets@[a]));
            }
        }
        let mut r: Vec<usize> = Vec::new();
        let mut k: usize = 0;
        while k < targets.len()
            invariant
                k <= targets@.len(),
                forall|a: int| 0 <= a < targets@.len() ==> targets@[a] < self.entries@.len(),
                forall|a: int| 0 <= a < targets@.len() ==> receives(self@.1, targets@[a] as int, s),
                forall|a: int, b: int| 0 <= a < b < targets@.len() ==> targets@[a] < targets@[b],
                forall|a: int| 0 <= a < r@.len() ==> receives(self@.1, r@[a] as int, s),
                forall|a: int, b: int| 0 <= a < b < r@.len() ==> r@[a] < r@[b],
                k < targets@.len() ==> forall|a: int| 0 <= a < r@.len() ==> r@[a] < targets@[k as int],
            decreases targets@.len() - k,
        {
            let i = targets[k];
            if try_send(&self.entries[i].sender, s) {
                r.push(i);
            }
            k = k + 1;
        }
        proof {
            assert forall|a: int, b: int| 0 <= a < b < r@.len() implies self@.0[r@[a] as int] != self@.0[r@[b] as int] by {
                assert(receives(self@.1, r@[a] as int, s));
                assert(receives(self@.1, r@[b] as int, s));
            }
        }
        r
    }
}

/// A channel subscribed to `s` is handed `s` when it arrives, and the
/// registry keeps one entry per channel.
pub proof fn lemma_subscriber_receives(m: Subscriptions, c: int, s: Signal)
    requires
        well_formed(m),
    ensures
        handed(notified(m, c, s), c, s),
        well_formed(notified(m, c, s)),
{
    let n = notified(m, c, s);
    let i = index_of(m.0, c);
    if holds_channel(m.0, c) {
        assert(m.0[i] == c);
        assert(n.1[i].contains(s));
    } else {
        assert(n.0[i] == c);
        assert(n.1[i] == set![s]);
        assert(n.1[i].contains(s));
    }
}

/// Subscriptions only accumulate: whatever a channel was handed before a
/// subscription, it is still handed after it.
pub proof fn lemma_subscriptions_persist(m: Subscriptions, c: int, s: Signal, d: int, t: Signal)
    requires
        well_formed(m),
        handed(m, d, t),
    ensures
        handed(notified(m, c, s), d, t),
{
    let n = notified(m, c, s);
    let k = choose|k: int| 0 <= k < m.0.len() && m.0[k] == d && #[trigger] m.1[k].contains(t);
    let i = index_of(m.0, c);
    if holds_channel(m.0, c) {
        assert(m.0[i] == c);
    }
    assert(n.0[k] == d);
    assert(n.1[k].contains(t));
}

/// Subscribing channel `c` to `s` changes nothing for any other signal: each
/// channel is handed `t != s` afterwards exactly when it was before.
pub proof fn lemma_other_signals_unaffected(m: Subscriptions, c: int, s: Signal, d: int, t: Signal)
    requires
        well_formed(m),
        s != t,
    ensures
        handed(notified(m, c, s), d, t) <==> handed(m, d, t),
{
    let n = notified(m, c, s);
    let i = index_of(m.0, c);
    if holds_channel(m.0, c) {
        assert(m.0[i] == c);
    }
    if handed(n, d, t) {
        let k = choose|k: int| 0 <= k < n.0.len() && n.0[k] == d && #[trigger] n.1[k].contains(t);
        assert(k < m.0.len());
        assert(m.0[k] == d);
        assert(m.1[k].contains(t));
    }
    if handed(m, d, t) {
        lemma_subscriptions_persist(m, c, s, d, t);
    }
}

/// Subscribing channel `c` changes nothing for any other channel: each
/// channel `d != c` is handed each signal afterwards exactly when it was
/// before.
pub proof fn lemma_other_channels_unaffected(m: Subscriptions, c: int, s: Signal, d: int, t: Signal)
    requires
        well_formed(m),
        c != d,
    ensures
        handed(notified(m, c, s), d, t) <==> handed(m, d, t),
{
    let n = notified(m, c, s);
    let i = index_of(m.0, c);
    if holds_channel(m.0, c) {
        assert(m.0[i] == c);
    }
    if handed(n, d, t) {
        let k = choose|k: int| 0 <= k < n.0.len() && n.0[k] == d && #[trigger] n.1[k].contains(t);
        assert(k < m.0.len());
        assert(k != i);
        assert(m.0[k] == d);
        assert(m.1[k].contains(t));
    }
    if handed(m, d, t) {
        lemma_subscriptions_persist(m, c, s, d, t);
    }
}

/// Two channels subscribed to one signal are both handed it.
pub proof fn lemma_two_channels_both_receive(m: Subscriptions, c1: int, c2: int, s: Signal)
    requires
        well_formed(m),
    ensures
        handed(notified(notified(m, c1, s), c2, s), c1, s),
        handed(notified(notified(m, c1, s), c2, s), c2, s),
{
    lemma_subscriber_receives(m, c1, s);
    lemma_subscriptions_persist(notified(m, c1, s), c2, s, c1, s);
    lemma_subscriber_receives(notified(m, c1, s), c2, s);
}

/// Subscribing a channel to a signal it already has changes nothing.
pub proof fn lemma_subscribe_idempotent(m: Subscriptions, c: int, s: Signal)
    requires
        well_formed(m),
    ensures
        notified(notified(m, c, s), c, s) == notified(m, c, s),
{
    let n = notified(m, c, s);
    lemma_subscriber_receives(m, c, s);
    let i = index_of(m.0, c);
    if holds_channel(m.0, c) {
        assert(m.0[i] == c);
    }
    assert(n.0[i] == c);
    assert(holds_channel(n.0, c));
    let j = index_of(n.0, c);
    assert(n.0[j] == c);
    assert(j == i);
    assert(n.1[i].insert(s) =~= n.1[i]);
    assert(n.1.update(i, n.1[i].insert(s)) =~= n.1);
}

/// A signal that none of a run of subscriptions names reaches no channel
/// they touched: blocking a signal without subscribing to it never hands it
/// to a channel. Each channel is handed `t` afterwards exactly when it was
/// before.
pub proof fn lemma_unsubscribed_signal_not_received(m: Subscriptions, ops: Seq<(int, Signal)>, t: Signal, d: int)
    requires
        well_formed(m),
        forall|j: int| 0 <= j < ops.len() ==> (#[trigger] ops[j]).1 != t,
    ensures
        handed(after_subscriptions(m, ops), d, t) <==> handed(m, d, t),
    decreases ops.len(),
{
    if ops.len() > 0 {
        let n = notified(m, ops[0].0, ops[0].1);
        assert forall|j: int| 0 <= j < ops.drop_first().len() implies (#[trigger] ops.drop_first()[j]).1 != t by {
            assert(ops.drop_first()[j] == ops[j + 1]);
        }
        lemma_subscriber_receives(m, ops[0].0, ops[0].1);
        lemma_unsubscribed_signal_not_received(n, ops.drop_first(), t, d);
        assert(ops[0].1 != t);
        lemma_other_signals_unaffected(m, ops[0].0, ops[0].1, d, t);
    }
}

/// The channel that `Registry::notify` subscribes is handed exactly the
/// signals it was listed for, besides any it had already; every other
/// channel is handed what it was before.
pub proof fn lemma_notified_channel_receives_listed(m: Subscriptions, c: int, signals: Seq<Signal>, d: int, t: Signal)
    requires
        well_formed(m),
    ensures
        well_formed(notified_all(m, c, signals)),
        handed(notified_all(m, c, signals), c, t) <==> (signals.contains(t) || handed(m, c, t)),
        d != c ==> (handed(notified_all(m, c, signals), d, t) <==> handed(m, d, t)),
    decreases signals.len(),
{
    if signals.len() > 0 {
        let prefix = signals.drop_last();
        let last = signals.last();
        let prev = notified_all(m, c, prefix);
        lemma_notified_channel_receives_listed(m, c, prefix, d, t);
        lemma_subscriber_receives(prev, c, last);
        assert(signals.contains(t) <==> (prefix.contains(t) || t == last)) by {
            if signals.contains(t) {
                let k = choose|k: int| 0 <= k < signals.len() && signals[k] == t;
                if k < prefix.len() {
                    assert(prefix[k] == t);
                }
            }
            if prefix.contains(t) {
                let k = choose|k: int| 0 <= k < prefix.len() && prefix[k] == t;
                assert(signals[k] == t);
            }
            if t == last {
                assert(signals[signals.len() - 1] == t);
            }
        }
        if t != last {
            lemma_other_signals_unaffected(prev, c, last, c, t);
            lemma_other_signals_unaffected(prev, c, last, d, t);
        }
        if d != c {
            lemma_other_channels_unaffected(prev, c, last, d, t);
        }
    }
}

/// Inserting the number of `s` into a bit set adds `s`, and no other signal,
/// to the signals it stands for.
proof fn lemma_insert_signal(before: Set<Signal>, after: Set<Signal>, s: Signal)
    requires
        forall|t: Signal| after.contains(t) <==> (before.contains(t) || signal_number(t) == signal_number(s)),
    ensures
        after == before.insert(s),
{
    assert forall|t: Signal| after.contains(t) <==> before.insert(s).contains(t) by {
        lemma_signal_number_injective(t, s);
    }
    assert(after =~= before.insert(s));
}

proof fn lemma_push_contains(before: Seq<usize>, x: usize)
    ensures
        forall|y: usize| before.push(x).contains(y) <==> (before.contains(y) || y == x),
{
    assert forall|y: usize| before.push(x).contains(y) <==> (before.contains(y) || y == x) by {
        if before.contains(y) {
            let k = choose|k: int| 0 <= k < before.len() && before[k] == y;
            assert(before.push(x)[k] == y);
        }
        if y == x {
            assert(before.push(x)[before.len() as int] == y);
        }
        if before.push(x).contains(y) && y != x {
            let k = choose|k: int| 0 <= k < before.push(x).len() && before.push(x)[k] == y;
            assert(before[k] == y);
        }
    }
}

} // verus!
