//! Signal sets: the masks that are blocked and waited on.

use vstd::prelude::*;

use crate::bits::{bits_contains, bits_insert, bits_new, bits_of};
use crate::signal::{catalog, is_catalog_number, signal_number, Signal};

verus! {

/// The largest signal number that a signal set can hold (Linux: `_NSIG - 1`).
pub const MAX_SIGNAL: i32 = 64;

/// Why a signal set refused a signal number.
#[derive(Clone, Copy, Debug, PartialEq, Eq, Structural)]
pub enum SigSetError {
    /// The number names no signal of this platform.
    InvalidSignal(i32),
}

/// A set of operating-system signal numbers.
pub struct SigSet {
    bits: bit_set::BitSet,
}

/// The numbers of all the signals of the catalog.
pub open spec fn subscribable_numbers() -> Set<i32> {
    Set::new(|n: i32| is_catalog_number(n))
}

/// The numbers of the given signals.
pub open spec fn numbers_of(signals: Seq<Signal>) -> Set<i32> {
    Set::new(|n: i32| exists|i: int| 0 <= i < signals.len() && signal_number(#[trigger] signals[i]) == n)
}

impl View for SigSet {
    type V = Set<i32>;

    closed spec fn view(&self) -> Set<i32> {
        Set::new(|n: i32| 1 <= n <= MAX_SIGNAL && bits_of(self.bits).contains(n as usize))
    }
}

impl SigSet {
    /// The set that holds no signal.
    pub fn empty() -> (r: SigSet)
        ensures
            r@ == Set::<i32>::empty(),
    {
        let r = SigSet { bits: bits_new() };
        assert(r@ =~= Set::<i32>::empty());
        r
    }

    /// Adds `sig`; adding a number already there changes nothing. A number
    /// outside `1..=MAX_SIGNAL` is refused and the set is left as it was.
    pub fn add(&mut self, sig: i32) -> (r: Result<(), SigSetError>)
        ensures
            1 <= sig <= MAX_SIGNAL ==> r is Ok && final(self)@ == old(self)@.insert(sig),
            !(1 <= sig <= MAX_SIGNAL) ==> r == Err::<(), SigSetError>(SigSetError::InvalidSignal(sig))
                && final(self)@ == old(self)@,
    {
        if sig < 1 || sig > MAX_SIGNAL {
            return Err(SigSetError::InvalidSignal(sig));
        }
        bits_insert(&mut self.bits, sig as usize);
        assert(self@ =~= old(self)@.insert(sig));
        Ok(())
    }

    /// Whether the set holds `sig`.
    pub fn contains(&self, sig: i32) -> (r: bool)
        ensures
            r == self@.contains(sig),
    {
        if sig < 1 || sig > MAX_SIGNAL {
            return false;
        }
        bits_contains(&self.bits, sig as usize)
    }

    /// The set of every signal of the catalog: the one set that is blocked
    /// and waited on as a whole.
    pub fn subscribable() -> (r: SigSet)
        ensures
            r@ == subscribable_numbers(),
    {
        let all = catalog();
        let r = SigSet::of_signals(all.as_slice());
        assert(numbers_of(all@) =~= subscribable_numbers()) by {
            assert forall|n: i32| subscribable_numbers().contains(n) implies numbers_of(all@).contains(n) by {
                let s = choose|s: Signal| #[trigger] signal_number(s) == n;
                assert(all@.contains(s));
                let i = choose|i: int| 0 <= i < all@.len() && all@[i] == s;
                assert(signal_number(all@[i]) == n);
            }
            assert forall|n: i32| numbers_of(all@).contains(n) implies subscribable_numbers().contains(n) by {
                let i = choose|i: int| 0 <= i < all@.len() && signal_number(#[trigger] all@[i]) == n;
                assert(signal_number(all@[i]) == n);
            }
        }
        r
    }

    /// The signals that can be subscribed to where the platform reports
    /// console control events instead of signals: interrupt and terminate.
    pub fn console_subscribable() -> (r: SigSet)
        ensures
            r@ == set![signal_number(Signal::INT), signal_number(Signal::TERM)],
    {
        let mut set = SigSet::empty();
        let _ = set.add(Signal::INT.as_sig());
        let _ = set.add(Signal::TERM.as_sig());
        assert(set@ =~= set![signal_number(Signal::INT), signal_number(Signal::TERM)]);
        set
    }

    /// The signals of this set that console control events can stand for:
    /// interrupt and terminate, where this set holds them.
    pub fn console_part(&self) -> (r: SigSet)
        ensures
            r@ == self@.intersect(set![signal_number(Signal::INT), signal_number(Signal::TERM)]),
    {
        let mut r = SigSet::empty();
        let interrupt = Signal::INT.as_sig();
        let term = Signal::TERM.as_sig();
        if self.contains(interrupt) {
            let _ = r.add(interrupt);
        }
        if self.contains(term) {
            let _ = r.add(term);
        }
        assert(r@ =~= self@.intersect(set![interrupt, term]));
        r
    }

    /// Adds every number of `other`.
    pub fn add_all(&mut self, other: &SigSet)
        ensures
            final(self)@ == old(self)@.union(other@),
    {
        let members = other.members();
        let mut k: usize = 0;
        while k < members.len()
            invariant
                k <= members@.len(),
                forall|n: i32| members@.contains(n) <==> other@.contains(n),
                self@ == old(self)@.union(Set::new(|n: i32| members@.subrange(0, k as int).contains(n))),
            decreases members@.len() - k,
        {
            let ghost before = self@;
            let n = members[k];
            assert(members@.contains(n));
            let _ = self.add(n);
            proof {
                let prefix = members@.subrange(0, k as int);
                let next = members@.subrange(0, k + 1);
                assert(next[k as int] == n);
                assert forall|m: i32| #[trigger] next.contains(m) <==> (prefix.contains(m) || m == n) by {
                    if next.contains(m) {
                        let j = choose|j: int| 0 <= j < next.len() && next[j] == m;
                        if j < k {
                            assert(prefix[j] == m);
                        }
                    }
                    if prefix.contains(m) {
                        let j = choose|j: int| 0 <= j < prefix.len() && prefix[j] == m;
                        assert(next[j] == m);
                    }
                }
                assert(self@ =~= old(self)@.union(Set::new(|m: i32| next.contains(m))));
            }
            k = k + 1;
        }
        proof {
            assert(members@.subrange(0, members@.len() as int) =~= members@);
            assert(self@ =~= old(self)@.union(other@));
        }
    }

    /// The set of the numbers of `signals`.
    pub fn of_signals(signals: &[Signal]) -> (r: SigSet)
        ensures
            r@ == numbers_of(signals@),
    {
        let mut set = SigSet::empty();
        let mut i: usize = 0;
        while i < signals.len()
            invariant
                i <= signals@.len(),
                set@ == numbers_of(signals@.subrange(0, i as int)),
            decreases signals@.len() - i,
        {
            let sig = signals[i].as_sig();
            proof {
                lemma_signal_number_range(signals@[i as int]);
            }
            let added = set.add(sig);
            proof {
                let prefix = signals@.subrange(0, i as int);
                let next = signals@.subrange(0, i + 1);
                assert(numbers_of(next) =~= numbers_of(prefix).insert(sig)) by {
                    assert(next[i as int] == signals@[i as int]);
                    assert forall|n: i32| numbers_of(prefix).contains(n) implies numbers_of(next).contains(n) by {
                        let j = choose|j: int| 0 <= j < prefix.len() && signal_number(#[trigger] prefix[j]) == n;
                        assert(next[j] == prefix[j]);
                    }
                    assert forall|n: i32| numbers_of(next).contains(n) && n != sig implies numbers_of(prefix).contains(n) by {
                        let j = choose|j: int| 0 <= j < next.len() && signal_number(#[trigger] next[j]) == n;
                        assert(prefix[j] == next[j]);
                    }
                }
            }
            i = i + 1;
        }
        assert(signals@.subrange(0, signals@.len() as int) =~= signals@);
        set
    }

    /// The numbers in the set, in increasing order.
    pub fn members(&self) -> (r: Vec<i32>)
        ensures
            forall|n: i32| r@.contains(n) <==> self@.contains(n),
            forall|i: int, j: int| 0 <= i < j < r@.len() ==> r@[i] < r@[j],
    {
        let mut r: Vec<i32> = Vec::new();
        let mut n: i32 = 1;
        while n <= MAX_SIGNAL
            invariant
                1 <= n <= MAX_SIGNAL + 1,
                forall|m: i32| r@.contains(m) <==> (self@.contains(m) && m < n),
                forall|i: int, j: int| 0 <= i < j < r@.len() ==> r@[i] < r@[j],
                forall|i: int| 0 <= i < r@.len() ==> r@[i] < n,
            decreases MAX_SIGNAL + 1 - n,
        {
            if self.contains(n) {
                let ghost before = r@;
                r.push(n);
                proof {
                    assert forall|m: i32| r@.contains(m) <==> (before.contains(m) || m == n) by {
                        if before.contains(m) {
                            let k = choose|k: int| 0 <= k < before.len() && before[k] == m;
                            assert(r@[k] == m);
                        }
                        if r@.contains(m) && m != n {
                            let k = choose|k: int| 0 <= k < r@.len() && r@[k] == m;
                            assert(k < before.len());
                            assert(before[k] == m);
                        }
                        if m == n {
                            assert(r@[before.len() as int] == n);
                        }
                    }
                }
            }
            n = n + 1;
        }
        proof {
            assert forall|m: i32| self@.contains(m) implies m <= MAX_SIGNAL by {}
        }
        r
    }
}

/// Every signal number lies in the range that a signal set accepts.
proof fn lemma_signal_number_range(s: Signal)
    ensures
        1 <= signal_number(s) <= MAX_SIGNAL,
{
}

} // verus!
