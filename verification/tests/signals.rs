use fracture_kernel::signal::{
    init, process_signals, register_process, send_signal, set_handler, unregister_process,
    ProcessSignals, Signal, SignalAction, SignalManager,
};

const ALL: [(u32, Signal); 19] = [
    (1, Signal::SIGHUP),
    (2, Signal::SIGINT),
    (3, Signal::SIGQUIT),
    (4, Signal::SIGILL),
    (5, Signal::SIGTRAP),
    (6, Signal::SIGABRT),
    (7, Signal::SIGBUS),
    (8, Signal::SIGFPE),
    (9, Signal::SIGKILL),
    (10, Signal::SIGUSR1),
    (11, Signal::SIGSEGV),
    (12, Signal::SIGUSR2),
    (13, Signal::SIGPIPE),
    (14, Signal::SIGALRM),
    (15, Signal::SIGTERM),
    (17, Signal::SIGCHLD),
    (18, Signal::SIGCONT),
    (19, Signal::SIGSTOP),
    (20, Signal::SIGTSTP),
];

#[test]
fn signal_numbers() {
    for (n, s) in ALL {
        assert_eq!(Signal::from_u32(n), Some(s));
        assert_eq!(s.as_u32(), n);
    }
    for n in [0u32, 16, 21, 64, u32::MAX] {
        assert_eq!(Signal::from_u32(n), None);
    }
}

#[test]
fn kill_and_stop_are_not_catchable() {
    for (_, s) in ALL {
        let expected = s != Signal::SIGKILL && s != Signal::SIGSTOP;
        assert_eq!(s.is_catchable(), expected);
    }
}

#[test]
fn handler_defaults_and_replacement() {
    let mut ps = ProcessSignals::new(4);
    assert_eq!(ps.pid(), 4);
    assert_eq!(ps.get_handler(Signal::SIGINT), SignalAction::Default);
    ps.set_handler(Signal::SIGINT, SignalAction::Handler(0x4000));
    ps.set_handler(Signal::SIGTERM, SignalAction::Ignore);
    assert_eq!(ps.get_handler(Signal::SIGINT), SignalAction::Handler(0x4000));
    assert_eq!(ps.get_handler(Signal::SIGTERM), SignalAction::Ignore);
    ps.set_handler(Signal::SIGINT, SignalAction::Ignore);
    assert_eq!(ps.get_handler(Signal::SIGINT), SignalAction::Ignore);
    ps.set_handler(Signal::SIGINT, SignalAction::Default);
    assert_eq!(ps.get_handler(Signal::SIGINT), SignalAction::Default);
    assert_eq!(ps.get_handler(Signal::SIGTERM), SignalAction::Ignore);
    assert_eq!(ps.get_handler(Signal::SIGHUP), SignalAction::Default);
}

#[test]
fn kill_and_stop_always_take_the_default_action() {
    let mut ps = ProcessSignals::new(4);
    ps.set_handler(Signal::SIGKILL, SignalAction::Handler(0x4000));
    ps.set_handler(Signal::SIGSTOP, SignalAction::Ignore);
    assert_eq!(ps.get_handler(Signal::SIGKILL), SignalAction::Default);
    assert_eq!(ps.get_handler(Signal::SIGSTOP), SignalAction::Default);
}

#[test]
fn blocked_signal_is_dropped_for_good() {
    let mut ps = ProcessSignals::new(4);
    ps.block(Signal::SIGUSR1);
    assert!(ps.is_blocked(Signal::SIGUSR1));
    assert!(!ps.is_blocked(Signal::SIGUSR2));
    ps.add_pending(Signal::SIGUSR1, Some(9));
    assert!(!ps.has_pending());
    ps.unblock(Signal::SIGUSR1);
    assert!(!ps.is_blocked(Signal::SIGUSR1));
    assert_eq!(ps.next_pending(), None);
    ps.add_pending(Signal::SIGUSR1, Some(9));
    assert!(ps.has_pending());
    assert_eq!(ps.next_pending(), Some((Signal::SIGUSR1, Some(9))));
}

#[test]
fn block_and_unblock_are_idempotent() {
    let mut ps = ProcessSignals::new(4);
    ps.unblock(Signal::SIGINT);
    assert!(!ps.is_blocked(Signal::SIGINT));
    ps.block(Signal::SIGINT);
    ps.block(Signal::SIGINT);
    ps.block(Signal::SIGTERM);
    assert!(ps.is_blocked(Signal::SIGINT));
    ps.unblock(Signal::SIGINT);
    assert!(!ps.is_blocked(Signal::SIGINT));
    assert!(ps.is_blocked(Signal::SIGTERM));
    ps.unblock(Signal::SIGINT);
    assert!(!ps.is_blocked(Signal::SIGINT));
}

#[test]
fn pending_signals_come_out_last_in_first_out() {
    let mut ps = ProcessSignals::new(4);
    ps.add_pending(Signal::SIGINT, None);
    ps.add_pending(Signal::SIGTERM, Some(2));
    ps.add_pending(Signal::SIGINT, Some(3));
    assert_eq!(ps.next_pending(), Some((Signal::SIGINT, Some(3))));
    assert_eq!(ps.next_pending(), Some((Signal::SIGTERM, Some(2))));
    assert_eq!(ps.next_pending(), Some((Signal::SIGINT, None)));
    assert_eq!(ps.next_pending(), None);
    assert!(!ps.has_pending());
}

#[test]
fn manager_delivers_second_signal_first() {
    let mut sm = init();
    register_process(&mut sm, 5);
    set_handler(&mut sm, 5, Signal::SIGUSR1, SignalAction::Handler(0xdead));
    send_signal(&mut sm, 5, Signal::SIGUSR1, Some(1));
    send_signal(&mut sm, 5, Signal::SIGUSR2, None);
    assert_eq!(
        process_signals(&mut sm, 5),
        Some((Signal::SIGUSR2, SignalAction::Default))
    );
    assert_eq!(
        process_signals(&mut sm, 5),
        Some((Signal::SIGUSR1, SignalAction::Handler(0xdead)))
    );
    assert_eq!(process_signals(&mut sm, 5), None);
}

#[test]
fn manager_never_hands_kill_to_a_handler() {
    let mut sm = SignalManager::new();
    sm.register_process(5);
    sm.set_handler(5, Signal::SIGKILL, SignalAction::Handler(0x1234));
    sm.set_handler(5, Signal::SIGSTOP, SignalAction::Ignore);
    sm.send_signal(5, Signal::SIGKILL, None);
    sm.send_signal(5, Signal::SIGSTOP, None);
    assert_eq!(sm.process_signals(5), Some((Signal::SIGSTOP, SignalAction::Default)));
    assert_eq!(sm.process_signals(5), Some((Signal::SIGKILL, SignalAction::Default)));
}

#[test]
fn unknown_pid_is_ignored() {
    let mut sm = SignalManager::new();
    assert!(!sm.is_registered(5));
    sm.send_signal(5, Signal::SIGINT, None);
    sm.set_handler(5, Signal::SIGINT, SignalAction::Ignore);
    assert_eq!(sm.process_signals(5), None);
    sm.register_process(5);
    assert!(sm.is_registered(5));
    assert!(!sm.is_registered(6));
    assert_eq!(sm.process_signals(5), None);
    sm.send_signal(5, Signal::SIGINT, None);
    assert_eq!(sm.process_signals(5), Some((Signal::SIGINT, SignalAction::Default)));
}

#[test]
fn unregister_drops_signal_state() {
    let mut sm = SignalManager::new();
    sm.register_process(5);
    sm.register_process(6);
    sm.set_handler(5, Signal::SIGINT, SignalAction::Ignore);
    sm.send_signal(5, Signal::SIGINT, None);
    sm.send_signal(6, Signal::SIGHUP, Some(5));
    unregister_process(&mut sm, 5);
    assert_eq!(sm.process_signals(5), None);
    sm.register_process(5);
    sm.send_signal(5, Signal::SIGINT, None);
    assert_eq!(sm.process_signals(5), Some((Signal::SIGINT, SignalAction::Default)));
    assert_eq!(sm.process_signals(6), Some((Signal::SIGHUP, SignalAction::Default)));
}

#[test]
fn registering_twice_keeps_signal_state() {
    let mut sm = SignalManager::new();
    sm.register_process(5);
    sm.send_signal(5, Signal::SIGINT, None);
    sm.register_process(5);
    assert_eq!(sm.process_signals(5), Some((Signal::SIGINT, SignalAction::Default)));
    assert_eq!(sm.process_signals(5), None);
    sm.unregister_process(5);
    sm.send_signal(5, Signal::SIGINT, None);
    assert_eq!(sm.process_signals(5), None);
}
