//! The catalog of signals that can be subscribed to, and their numbers on
//! this platform (Linux).

use vstd::prelude::*;

verus! {

/// A signal of the catalog that can be blocked and subscribed to.
#[allow(missing_docs)]
#[non_exhaustive]
#[derive(Clone, Copy, Debug, PartialEq, Eq, Hash, Structural)]
pub enum Signal {
    HUP,
    INT,
    QUIT,
    ILL,
    ABRT,
    FPE,
    KILL,
    SEGV,
    PIPE,
    ALRM,
    TERM,
    USR1,
    USR2,
    CHLD,
    CONT,
    STOP,
    TSTP,
    TTIN,
    TTOU,
    BUS,
    PROF,
    SYS,
    TRAP,
    URG,
    VTALRM,
    XCPU,
    XFSZ,
    IO,
    WINCH,
}

/// The operating-system signal number of a signal (Linux numbering).
pub open spec fn signal_number(s: Signal) -> i32 {
    match s {
        Signal::HUP => 1,
        Signal::INT => 2,
        Signal::QUIT => 3,
        Signal::ILL => 4,
        Signal::ABRT => 6,
        Signal::FPE => 8,
        Signal::KILL => 9,
        Signal::SEGV => 11,
        Signal::PIPE => 13,
        Signal::ALRM => 14,
        Signal::TERM => 15,
        Signal::USR1 => 10,
        Signal::USR2 => 12,
        Signal::CHLD => 17,
        Signal::CONT => 18,
        Signal::STOP => 19,
        Signal::TSTP => 20,
        Signal::TTIN => 21,
        Signal::TTOU => 22,
        Signal::BUS => 7,
        Signal::PROF => 27,
        Signal::SYS => 31,
        Signal::TRAP => 5,
        Signal::URG => 23,
        Signal::VTALRM => 26,
        Signal::XCPU => 24,
        Signal::XFSZ => 25,
        Signal::IO => 29,
        Signal::WINCH => 28,
    }
}

/// The signal that console control event `code` stands for (codes `0` to `2`).
pub open spec fn console_event_signal(code: u32) -> Signal {
    if code == 2 {
        Signal::TERM
    } else {
        Signal::INT
    }
}

/// Whether `n` is the number of some signal of the catalog.
pub open spec fn is_catalog_number(n: i32) -> bool {
    exists|s: Signal| #[trigger] signal_number(s) == n
}

/// Distinct signals have distinct numbers, and every number lies in `1..=31`.
pub proof fn lemma_signal_number_injective(a: Signal, b: Signal)
    ensures
        signal_number(a) == signal_number(b) <==> a == b,
        1 <= signal_number(a) <= 31,
{
}

/// Every signal of the catalog, once each, in declaration order.
pub fn catalog() -> (r: Vec<Signal>)
    ensures
        forall|s: Signal| #[trigger] r@.contains(s),
        r@.no_duplicates(),
        r@.len() == 29,
{
    let r = vec![Signal::HUP, Signal::INT, Signal::QUIT, Signal::ILL, Signal::ABRT, Signal::FPE, Signal::KILL, Signal::SEGV, Signal::PIPE, Signal::ALRM, Signal::TERM, Signal::USR1, Signal::USR2, Signal::CHLD, Signal::CONT, Signal::STOP, Signal::TSTP, Signal::TTIN, Signal::TTOU, Signal::BUS, Signal::PROF, Signal::SYS, Signal::TRAP, Signal::URG, Signal::VTALRM, Signal::XCPU, Signal::XFSZ, Signal::IO, Signal::WINCH];
    proof {
        assert forall|s: Signal| #[trigger] r@.contains(s) by {
            match s {
                Signal::HUP => assert(r@[0] == s),
                Signal::INT => assert(r@[1] == s),
                Signal::QUIT => assert(r@[2] == s),
                Signal::ILL => assert(r@[3] == s),
                Signal::ABRT => assert(r@[4] == s),
                Signal::FPE => assert(r@[5] == s),
                Signal::KILL => assert(r@[6] == s),
                Signal::SEGV => assert(r@[7] == s),
                Signal::PIPE => assert(r@[8] == s),
                Signal::ALRM => assert(r@[9] == s),
                Signal::TERM => assert(r@[10] == s),
                Signal::USR1 => assert(r@[11] == s),
                Signal::USR2 => assert(r@[12] == s),
                Signal::CHLD => assert(r@[13] == s),
                Signal::CONT => assert(r@[14] == s),
                Signal::STOP => assert(r@[15] == s),
                Signal::TSTP => assert(r@[16] == s),
                Signal::TTIN => assert(r@[17] == s),
                Signal::TTOU => assert(r@[18] == s),
                Signal::BUS => assert(r@[19] == s),
                Signal::PROF => assert(r@[20] == s),
                Signal::SYS => assert(r@[21] == s),
                Signal::TRAP => assert(r@[22] == s),
                Signal::URG => assert(r@[23] == s),
                Signal::VTALRM => assert(r@[24] == s),
                Signal::XCPU => assert(r@[25] == s),
                Signal::XFSZ => assert(r@[26] == s),
                Signal::IO => assert(r@[27] == s),
                Signal::WINCH => assert(r@[28] == s),
            }
        }
    }
    r
}

impl Signal {
    /// The signal whose operating-system number is `sig`.
    pub fn new(sig: i32) -> (r: Signal)
        requires
            is_catalog_number(sig),
        ensures
            signal_number(r) == sig,
    {
        match sig {
            1 => Signal::HUP,
            2 => Signal::INT,
            3 => Signal::QUIT,
            4 => Signal::ILL,
            6 => Signal::ABRT,
            8 => Signal::FPE,
            9 => Signal::KILL,
            11 => Signal::SEGV,
            13 => Signal::PIPE,
            14 => Signal::ALRM,
            15 => Signal::TERM,
            10 => Signal::USR1,
            12 => Signal::USR2,
            17 => Signal::CHLD,
            18 => Signal::CONT,
            19 => Signal::STOP,
            20 => Signal::TSTP,
            21 => Signal::TTIN,
            22 => Signal::TTOU,
            7 => Signal::BUS,
            27 => Signal::PROF,
            31 => Signal::SYS,
            5 => Signal::TRAP,
            23 => Signal::URG,
            26 => Signal::VTALRM,
            24 => Signal::XCPU,
            25 => Signal::XFSZ,
            29 => Signal::IO,
            _ => {
                assert(sig == 28);
                Signal::WINCH
            },
        }
    }

    /// The signal that a console control event stands for: Ctrl-C (`0`) and
    /// Ctrl-Break (`1`) interrupt, closing the console (`2`) terminates.
    pub fn from_console_event(code: u32) -> (r: Signal)
        requires
            code <= 2,
        ensures
            r == console_event_signal(code),
    {
        match code {
            0 | 1 => Signal::INT,
            _ => Signal::TERM,
        }
    }

    /// The operating-system number of this signal.
    pub fn as_sig(self) -> (r: i32)
        ensures
            r == signal_number(self),
    {
        match self {
            Signal::HUP => 1,
            Signal::INT => 2,
            Signal::QUIT => 3,
            Signal::ILL => 4,
            Signal::ABRT => 6,
            Signal::FPE => 8,
            Signal::KILL => 9,
            Signal::SEGV => 11,
            Signal::PIPE => 13,
            Signal::ALRM => 14,
            Signal::TERM => 15,
            Signal::USR1 => 10,
            Signal::USR2 => 12,
            Signal::CHLD => 17,
            Signal::CONT => 18,
            Signal::STOP => 19,
            Signal::TSTP => 20,
            Signal::TTIN => 21,
            Signal::TTOU => 22,
            Signal::BUS => 7,
            Signal::PROF => 27,
            Signal::SYS => 31,
            Signal::TRAP => 5,
            Signal::URG => 23,
            Signal::VTALRM => 26,
            Signal::XCPU => 24,
            Signal::XFSZ => 25,
            Signal::IO => 29,
            Signal::WINCH => 28,
        }
    }
}

} // verus!
