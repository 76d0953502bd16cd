use benchserv::benchmark::{ConnectionManager, Message, Sample};

#[test]
fn fixed_population_steady_state() {
    // Fixed mode with three units; each unit reports one latency sample and
    // then ends; the manager refills to three after every retirement.
    let (mut m, initial) = ConnectionManager::new_constant(3);
    assert_eq!(initial, 3);
    assert_eq!(m.active, 3);

    let mut samples = 0;
    let mut ended = 0;
    let mut spawned = 0;
    for latency in [12u64, 40, 7] {
        let r = m.handle_message(Message::Data(latency));
        assert_eq!(r.emit, Some(Sample::Plain(latency)));
        assert_eq!(r.sentinel, None);
        assert_eq!(r.spawn, 0);
        assert!(!r.done);
        samples += 1;

        let r = m.handle_message(Message::ConnectionEnded);
        assert_eq!(r.emit, None);
        assert_eq!(r.spawn, 1);
        assert!(!r.done);
        ended += 1;
        spawned += r.spawn;
        assert_eq!(m.active, 3);
    }
    assert_eq!((samples, ended, spawned), (3, 3, 3));
    // Lifecycle accounting: units spawned so far, less units ended, is
    // exactly the live population.
    assert_eq!(initial + spawned - ended, m.active);
    assert_eq!(m.active, 3);
    assert!(!m.paused);
    assert!(!m.stopped);
}

#[test]
fn fixed_population_zero_units() {
    let (mut m, initial) = ConnectionManager::new_constant(0);
    assert_eq!(initial, 0);
    assert_eq!(m.active, 0);
    let r = m.handle_message(Message::Data(5));
    assert_eq!(r.emit, Some(Sample::Plain(5)));
    assert_eq!(r.spawn, 0);
    // A straggler lifecycle event never drives the count below zero.
    let r = m.handle_message(Message::ConnectionEnded);
    assert_eq!(m.active, 0);
    assert_eq!(r.spawn, 0);
}

#[test]
fn paused_run_only_drains() {
    let (mut m, _) = ConnectionManager::new_constant(3);
    let r = m.handle_message(Message::Pause);
    assert_eq!(r.spawn, 0);
    assert!(m.paused);

    let r = m.handle_message(Message::ConnectionEnded);
    assert_eq!(r.spawn, 0);
    assert_eq!(m.active, 2);
    // Samples are still forwarded while paused; only refilling halts.
    let r = m.handle_message(Message::Data(9));
    assert_eq!(r.emit, Some(Sample::Plain(9)));
    assert_eq!(r.spawn, 0);
    let r = m.handle_message(Message::ConnectionEnded);
    assert_eq!(r.spawn, 0);
    assert_eq!(m.active, 1);

    // Resuming refills back to the target in the same step.
    let r = m.handle_message(Message::Resume);
    assert_eq!(r.spawn, 2);
    assert_eq!(m.active, 3);
    assert!(!m.paused);
}

#[test]
fn stop_is_terminal_and_idempotent() {
    let (mut m, _) = ConnectionManager::new_constant(2);
    let r = m.handle_message(Message::Stop);
    assert!(r.done);
    assert!(m.stopped);
    assert_eq!(r.emit, None);
    assert_eq!(r.spawn, 0);

    let before = m;
    // No sample is delivered after Stop, and a second Stop changes nothing.
    let r = m.handle_message(Message::Data(11));
    assert_eq!(r.emit, None);
    assert_eq!(r.spawn, 0);
    assert!(r.done);
    assert_eq!(m, before);
    let r = m.handle_message(Message::Stop);
    assert_eq!(r.emit, None);
    assert_eq!(r.spawn, 0);
    assert!(r.done);
    assert_eq!(m, before);
}

#[test]
fn ramp_levels_and_sentinel() {
    // Ramp-up with ceiling two: level 1 for ten samples, level 2 for ten
    // more, then the single sentinel at the over-cap level 3.
    let (mut m, initial) = ConnectionManager::new_increase(2);
    assert_eq!(initial, 1);
    assert_eq!(m.cap, 1);
    assert_eq!(m.active, 1);

    for i in 0..10u64 {
        let r = m.handle_message(Message::Data(100 + i));
        assert_eq!(r.emit, Some(Sample::Leveled(100 + i, 1)));
        assert_eq!(r.sentinel, None);
        assert!(!r.done);
        if i < 9 {
            assert_eq!(r.spawn, 0);
            assert_eq!(m.cap, 1);
        } else {
            // The tenth accepted sample raises the level and spawns one
            // more unit.
            assert_eq!(r.spawn, 1);
            assert_eq!(m.cap, 2);
            assert_eq!(m.active, 2);
        }
    }

    for i in 0..10u64 {
        let r = m.handle_message(Message::Data(200 + i));
        if i < 9 {
            assert_eq!(r.emit, Some(Sample::Leveled(200 + i, 2)));
            assert_eq!(r.sentinel, None);
            assert!(!r.done);
        } else {
            // The move to level 3 would exceed the ceiling: the last sample
            // is still accepted at level 2, then the sentinel ends the run.
            assert_eq!(r.emit, Some(Sample::Leveled(200 + i, 2)));
            assert_eq!(r.sentinel, Some(Sample::Leveled(u64::MAX, 3)));
            assert_eq!(r.spawn, 0);
            assert!(r.done);
        }
    }
    assert!(m.stopped);

    // Nothing follows the sentinel.
    let r = m.handle_message(Message::Data(999));
    assert_eq!(r.emit, None);
    assert_eq!(r.sentinel, None);
    assert_eq!(r.spawn, 0);

    // A stopped run is inert: straggler lifecycle events change nothing.
    let before = m;
    for _ in 0..5 {
        let r = m.handle_message(Message::ConnectionEnded);
        assert_eq!(r.spawn, 0);
    }
    assert_eq!(m, before);
}

#[test]
fn ramp_zero_ceiling_accepts_nothing() {
    let (mut m, initial) = ConnectionManager::new_increase(0);
    assert_eq!(initial, 1);
    let r = m.handle_message(Message::Data(5));
    assert_eq!(r.emit, None);
    assert_eq!(r.sentinel, None);
    assert_eq!(r.spawn, 0);
    assert!(!r.done);
    let r = m.handle_message(Message::ConnectionEnded);
    assert_eq!(m.active, 0);
    assert_eq!(r.spawn, 0);
    let r = m.handle_message(Message::ConnectionEnded);
    assert_eq!(m.active, 0);
    assert_eq!(r.spawn, 0);
    let r = m.handle_message(Message::Stop);
    assert!(r.done);
    assert!(m.stopped);
}

#[test]
fn ramp_pause_blocks_top_up() {
    let (mut m, _) = ConnectionManager::new_increase(3);
    m.handle_message(Message::Pause);
    // Samples are still accepted and counted while paused.
    for i in 0..10u64 {
        let r = m.handle_message(Message::Data(i));
        assert_eq!(r.emit, Some(Sample::Leveled(i, 1)));
        assert_eq!(r.spawn, 0);
    }
    // The level rose, but no unit was spawned while paused.
    assert_eq!(m.cap, 2);
    assert_eq!(m.active, 1);
    let r = m.handle_message(Message::Resume);
    assert_eq!(r.spawn, 1);
    assert_eq!(m.active, 2);
}

#[test]
fn ramp_smallest_ceiling_ends_after_one_level() {
    let (mut m, _) = ConnectionManager::new_increase(1);
    for i in 0..9u64 {
        let r = m.handle_message(Message::Data(i));
        assert_eq!(r.emit, Some(Sample::Leveled(i, 1)));
        assert_eq!(r.sentinel, None);
    }
    let r = m.handle_message(Message::Data(9));
    assert_eq!(r.emit, Some(Sample::Leveled(9, 1)));
    assert_eq!(r.sentinel, Some(Sample::Leveled(u64::MAX, 2)));
    assert!(r.done);
    assert!(m.stopped);
}

#[test]
fn fixed_population_accounting_holds_under_interleaving() {
    let (mut m, initial) = ConnectionManager::new_constant(4);
    let script = [
        Message::Data(3),
        Message::ConnectionEnded,
        Message::Pause,
        Message::ConnectionEnded,
        Message::Data(8),
        Message::ConnectionEnded,
        Message::Resume,
        Message::Data(1),
        Message::ConnectionEnded,
        Message::ConnectionEnded,
    ];
    let mut spawned = initial;
    let mut ended = 0u64;
    for message in script {
        let r = m.handle_message(message);
        spawned += r.spawn;
        if message == Message::ConnectionEnded {
            ended += 1;
        }
        // The population never exceeds its target, and every spawn and
        // every retirement is counted exactly once.
        assert!(m.active <= 4);
        assert_eq!(m.active, spawned - ended);
    }
    assert_eq!(m.active, 4);
    let r = m.handle_message(Message::ConnectionEnded);
    assert_eq!(r.spawn, 1);
    assert_eq!(m.active, 4);
}
