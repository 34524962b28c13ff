use chan_signal::{block, block_all_subscribable, catalog, Registry, SigSet, SigSetError, Signal};

fn try_recv(r: &chan::Receiver<Signal>) -> Option<Signal> {
    let mut sel = chan::Select::new();
    let handle = sel.recv(r);
    let which = sel.try_select();
    if which == Some(handle.id()) {
        handle.into_value()
    } else {
        None
    }
}

#[test]
fn numbers_match_the_platform() {
    let expected = [
        (Signal::HUP, libc::SIGHUP),
        (Signal::INT, libc::SIGINT),
        (Signal::QUIT, libc::SIGQUIT),
        (Signal::ILL, libc::SIGILL),
        (Signal::ABRT, libc::SIGABRT),
        (Signal::FPE, libc::SIGFPE),
        (Signal::KILL, libc::SIGKILL),
        (Signal::SEGV, libc::SIGSEGV),
        (Signal::PIPE, libc::SIGPIPE),
        (Signal::ALRM, libc::SIGALRM),
        (Signal::TERM, libc::SIGTERM),
        (Signal::USR1, libc::SIGUSR1),
        (Signal::USR2, libc::SIGUSR2),
        (Signal::CHLD, libc::SIGCHLD),
        (Signal::CONT, libc::SIGCONT),
        (Signal::STOP, libc::SIGSTOP),
        (Signal::TSTP, libc::SIGTSTP),
        (Signal::TTIN, libc::SIGTTIN),
        (Signal::TTOU, libc::SIGTTOU),
        (Signal::BUS, libc::SIGBUS),
        (Signal::PROF, libc::SIGPROF),
        (Signal::SYS, libc::SIGSYS),
        (Signal::TRAP, libc::SIGTRAP),
        (Signal::URG, libc::SIGURG),
        (Signal::VTALRM, libc::SIGVTALRM),
        (Signal::XCPU, libc::SIGXCPU),
        (Signal::XFSZ, libc::SIGXFSZ),
        (Signal::IO, libc::SIGIO),
        (Signal::WINCH, libc::SIGWINCH),
    ];
    for (sig, num) in expected.iter() {
        assert_eq!(sig.as_sig(), *num);
        assert_eq!(Signal::new(*num), *sig);
    }
    assert_eq!(catalog().len(), expected.len());
}

#[test]
fn catalog_round_trips() {
    for sig in catalog() {
        assert_eq!(Signal::new(sig.as_sig()), sig);
    }
}

#[test]
fn console_events_map_to_signals() {
    assert_eq!(Signal::from_console_event(0), Signal::INT);
    assert_eq!(Signal::from_console_event(1), Signal::INT);
    assert_eq!(Signal::from_console_event(2), Signal::TERM);
}

#[test]
fn sigset_add_and_contains() {
    let mut set = SigSet::empty();
    assert!(set.members().is_empty());
    assert_eq!(set.add(15), Ok(()));
    assert_eq!(set.add(15), Ok(()));
    assert_eq!(set.add(1), Ok(()));
    assert!(set.contains(15));
    assert!(set.contains(1));
    assert!(!set.contains(2));
    assert_eq!(set.members(), vec![1, 15]);
}

#[test]
fn sigset_refuses_invalid_numbers() {
    let mut set = SigSet::empty();
    assert_eq!(set.add(0), Err(SigSetError::InvalidSignal(0)));
    assert_eq!(set.add(65), Err(SigSetError::InvalidSignal(65)));
    assert_eq!(set.add(-3), Err(SigSetError::InvalidSignal(-3)));
    assert!(set.members().is_empty());
    assert_eq!(set.add(64), Ok(()));
    assert_eq!(set.members(), vec![64]);
}

#[test]
fn subscribable_holds_the_whole_catalog() {
    let set = SigSet::subscribable();
    let mut expected: Vec<i32> = catalog().into_iter().map(|s| s.as_sig()).collect();
    expected.sort();
    assert_eq!(set.members(), expected);
    assert_eq!(block_all_subscribable().members(), expected);
    assert!(!set.contains(16));
}

#[test]
fn block_masks_exactly_the_given_signals() {
    assert_eq!(block(&[Signal::TERM]).members(), vec![15]);
    assert_eq!(block(&[Signal::USR2, Signal::HUP, Signal::USR2]).members(), vec![1, 12]);
    assert!(block(&[]).members().is_empty());
}

#[test]
fn console_subscribable_is_int_and_term() {
    assert_eq!(SigSet::console_subscribable().members(), vec![2, 15]);
}

#[test]
fn subscriber_receives_exactly_one() {
    let mut reg = Registry::new();
    let (s, r) = chan::sync(1);
    reg.notify_on(&s, Signal::USR1);
    assert_eq!(reg.recipients(Signal::USR1), vec![0]);
    assert_eq!(reg.dispatch(libc::SIGUSR1), vec![0]);
    assert_eq!(r.recv(), Some(Signal::USR1));
    assert_eq!(try_recv(&r), None);
}

#[test]
fn two_channels_both_receive_hup() {
    let mut reg = Registry::new();
    let (s1, r1) = chan::sync(1);
    let (s2, r2) = chan::sync(1);
    reg.notify_on(&s1, Signal::HUP);
    reg.notify_on(&s2, Signal::HUP);
    assert_eq!(reg.len(), 2);
    assert_eq!(reg.dispatch(libc::SIGHUP), vec![0, 1]);
    assert_eq!(r1.recv(), Some(Signal::HUP));
    assert_eq!(r2.recv(), Some(Signal::HUP));
}

#[test]
fn other_signal_is_not_received() {
    let mut reg = Registry::new();
    let (s, r) = chan::sync(1);
    reg.notify_on(&s, Signal::HUP);
    assert!(reg.recipients(Signal::INT).is_empty());
    assert!(reg.dispatch(libc::SIGINT).is_empty());
    assert_eq!(try_recv(&r), None);
}

#[test]
fn full_buffer_drops_and_recovers() {
    let mut reg = Registry::new();
    let (s, r) = chan::sync(1);
    reg.notify_on(&s, Signal::USR1);
    assert_eq!(reg.dispatch(libc::SIGUSR1), vec![0]);
    assert!(reg.dispatch(libc::SIGUSR1).is_empty());
    assert_eq!(r.recv(), Some(Signal::USR1));
    assert_eq!(try_recv(&r), None);
    assert_eq!(reg.dispatch(libc::SIGUSR1), vec![0]);
    assert_eq!(r.recv(), Some(Signal::USR1));
}

#[test]
fn blocked_term_reaches_no_channel() {
    let mask = block(&[Signal::TERM]);
    assert!(mask.contains(libc::SIGTERM));
    let mut reg = Registry::new();
    let (s, r) = chan::sync(1);
    reg.notify_on(&s, Signal::HUP);
    assert!(reg.dispatch(libc::SIGTERM).is_empty());
    assert_eq!(try_recv(&r), None);
}

#[test]
fn resubscribing_a_channel_keeps_one_entry() {
    let mut reg = Registry::new();
    let (s, r) = chan::sync(4);
    reg.notify_on(&s, Signal::INT);
    reg.notify_on(&s, Signal::TERM);
    reg.notify_on(&s.clone(), Signal::INT);
    assert_eq!(reg.len(), 1);
    assert_eq!(reg.position(&s), Some(0));
    assert!(reg.is_subscribed(0, Signal::INT));
    assert!(reg.is_subscribed(0, Signal::TERM));
    assert!(!reg.is_subscribed(0, Signal::HUP));
    assert_eq!(reg.dispatch(libc::SIGTERM), vec![0]);
    assert_eq!(r.recv(), Some(Signal::TERM));
}

#[test]
fn position_finds_the_entry_of_a_channel() {
    let mut reg = Registry::new();
    let (s1, _r1) = chan::sync(1);
    let (s2, _r2) = chan::sync(1);
    reg.notify_on(&s1, Signal::INT);
    reg.notify_on(&s2, Signal::QUIT);
    reg.notify_on(&s1.clone(), Signal::QUIT);
    assert_eq!(reg.len(), 2);
    assert_eq!(reg.position(&s1), Some(0));
    assert_eq!(reg.position(&s2.clone()), Some(1));
    assert_eq!(reg.recipients(Signal::QUIT), vec![0, 1]);
    assert_eq!(reg.recipients(Signal::INT), vec![0]);
    let (s3, _r3) = chan::sync(1);
    assert_eq!(reg.position(&s3), None);
}

#[test]
fn console_part_keeps_interrupt_and_terminate() {
    let mask = block(&[Signal::HUP, Signal::TERM, Signal::USR1]);
    assert_eq!(mask.console_part().members(), vec![15]);
    assert!(block(&[Signal::HUP]).console_part().members().is_empty());
    assert_eq!(block_all_subscribable().console_part().members(), vec![2, 15]);
}

#[test]
fn add_all_unions_sets() {
    let mut set = block(&[Signal::HUP, Signal::TERM]);
    set.add_all(&block(&[Signal::TERM, Signal::USR1]));
    assert_eq!(set.members(), vec![1, 10, 15]);
    set.add_all(&SigSet::empty());
    assert_eq!(set.members(), vec![1, 10, 15]);
}

#[test]
fn console_event_declined_unless_blocked() {
    let mut reg = Registry::new();
    let (s, r) = chan::sync(1);
    reg.notify_on(&s, Signal::INT);
    let none = SigSet::empty();
    assert_eq!(reg.handle_console_event(&none, 0), None);
    assert_eq!(try_recv(&r), None);
    let blocked = SigSet::console_subscribable();
    assert_eq!(reg.handle_console_event(&blocked, 1), Some(vec![0]));
    assert_eq!(r.recv(), Some(Signal::INT));
    assert_eq!(reg.handle_console_event(&blocked, 2), Some(vec![]));
}

#[test]
fn notify_subscribes_a_new_channel() {
    let mut reg = Registry::new();
    let (s, _r) = chan::sync(1);
    reg.notify_on(&s, Signal::HUP);
    let r = reg.notify(&[Signal::INT, Signal::TERM, Signal::INT]);
    assert_eq!(reg.len(), 2);
    assert_eq!(reg.recipients(Signal::INT), vec![1]);
    assert_eq!(reg.recipients(Signal::TERM), vec![1]);
    assert_eq!(reg.recipients(Signal::HUP), vec![0]);
    assert_eq!(reg.dispatch(libc::SIGTERM), vec![1]);
    assert_eq!(reg.dispatch(libc::SIGINT), vec![1]);
    assert_eq!(r.recv(), Some(Signal::TERM));
    assert_eq!(r.recv(), Some(Signal::INT));
    assert_eq!(try_recv(&r), None);
}

#[test]
fn notify_buffer_takes_a_burst() {
    let mut reg = Registry::new();
    let r = reg.notify(&[Signal::USR2]);
    for _ in 0..chan_signal::NOTIFY_BUFFER {
        assert_eq!(reg.dispatch(libc::SIGUSR2), vec![0]);
    }
    assert!(reg.dispatch(libc::SIGUSR2).is_empty());
    for _ in 0..chan_signal::NOTIFY_BUFFER {
        assert_eq!(r.recv(), Some(Signal::USR2));
    }
    assert_eq!(try_recv(&r), None);
}

#[test]
fn notify_with_no_signals_subscribes_nothing() {
    let mut reg = Registry::new();
    let r = reg.notify(&[]);
    assert_eq!(reg.len(), 0);
    assert_eq!(r.recv(), None);
}

#[test]
fn startup_blocks_before_spawning_and_restores_after() {
    assert_eq!(
        chan_signal::startup_plan(),
        vec![
            chan_signal::StartupStep::SaveMask,
            chan_signal::StartupStep::MaskCatalog,
            chan_signal::StartupStep::SpawnDispatcher,
            chan_signal::StartupStep::RestoreMask,
        ]
    );
}
