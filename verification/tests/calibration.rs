use lockstep::calibration::{
    client_measure_timing, host_measure_timing, input_delay_for, ClientTiming, HostAction,
    HostTiming, TimingError, TICK_TIME_MICROS, TIMING_PACKET_COUNT,
};
use lockstep::messages::{SetInputDelay, TimingPacket};

fn packet(n: u64) -> TimingPacket {
    TimingPacket { sequence_number: n }
}

/// Runs the initiator against a responder that echoes at once, with the
/// given round trip for each round, and returns the last action.
fn calibrate(round_trips: &[u128]) -> HostAction {
    let (mut state, first) = HostTiming::start();
    let mut in_flight = first;
    let mut last = HostAction::Probe(first);
    for elapsed in round_trips {
        last = host_measure_timing(&mut state, in_flight, *elapsed);
        if let HostAction::Probe(next) = last {
            in_flight = next;
        }
    }
    last
}

#[test]
fn constants_are_ten_rounds_of_sixteen_milliseconds() {
    assert_eq!(TIMING_PACKET_COUNT, 10);
    assert_eq!(TICK_TIME_MICROS, 16_000);
}

#[test]
fn input_delay_is_whole_ticks_plus_two() {
    assert_eq!(input_delay_for(0), SetInputDelay { input_delay: 2 });
    assert_eq!(input_delay_for(1), SetInputDelay { input_delay: 2 });
    assert_eq!(input_delay_for(15_999), SetInputDelay { input_delay: 2 });
    assert_eq!(input_delay_for(16_000), SetInputDelay { input_delay: 3 });
    assert_eq!(input_delay_for(31_999), SetInputDelay { input_delay: 3 });
    assert_eq!(input_delay_for(100_000), SetInputDelay { input_delay: 8 });
    assert_eq!(input_delay_for(1_000_000), SetInputDelay { input_delay: 64 });
}

#[test]
fn input_delay_wraps_into_the_field() {
    // 2^64 ticks and two more.
    let micros: u128 = (1u128 << 64) * 16_000;
    assert_eq!(input_delay_for(micros), SetInputDelay { input_delay: 2 });
    assert_eq!(
        input_delay_for(u128::MAX),
        SetInputDelay { input_delay: ((u128::MAX / 16_000 + 2) % (1u128 << 64)) as u64 }
    );
}

#[test]
fn host_starts_with_probe_one() {
    let (state, first) = HostTiming::start();
    assert_eq!(first, packet(1));
    assert_eq!(state.awaiting, Some(1));
    assert_eq!(state.max_elapsed_micros, 0);
}

#[test]
fn host_probes_with_rising_sequence_numbers() {
    let (mut state, _) = HostTiming::start();
    for n in 1..TIMING_PACKET_COUNT {
        let action = host_measure_timing(&mut state, packet(n), 100);
        assert_eq!(action, HostAction::Probe(packet(n + 1)));
        assert_eq!(state.awaiting, Some(n + 1));
    }
}

#[test]
fn fixed_latency_gives_floor_of_latency_over_tick_plus_two() {
    for latency in [0u128, 1, 500, 15_999, 16_000, 16_001, 40_000, 250_000, 3_000_000] {
        let action = calibrate(&[latency; 10]);
        assert_eq!(
            action,
            HostAction::Finish {
                last: packet(11),
                delay: SetInputDelay { input_delay: (latency / 16_000) as u64 + 2 },
            }
        );
    }
}

#[test]
fn host_keeps_the_longest_round_trip_not_the_average() {
    let action = calibrate(&[100, 200, 90_000, 100, 100, 100, 100, 100, 100, 100]);
    assert_eq!(
        action,
        HostAction::Finish { last: packet(11), delay: SetInputDelay { input_delay: 7 } }
    );
}

#[test]
fn host_finishes_after_exactly_ten_round_trips() {
    assert_eq!(calibrate(&[5; 9]), HostAction::Probe(packet(10)));
    assert!(matches!(calibrate(&[5; 10]), HostAction::Finish { .. }));
}

#[test]
fn wrong_sequence_number_aborts_calibration() {
    let (mut state, _) = HostTiming::start();
    assert_eq!(host_measure_timing(&mut state, packet(1), 10), HostAction::Probe(packet(2)));
    assert_eq!(
        host_measure_timing(&mut state, packet(3), 10),
        HostAction::Abort(TimingError::WrongSequenceNumber)
    );
    assert_eq!(state.awaiting, None);
}

#[test]
fn after_a_wrong_sequence_number_no_delay_is_ever_assigned() {
    for bad_round in 1..=TIMING_PACKET_COUNT {
        let (mut state, _) = HostTiming::start();
        let mut actions = Vec::new();
        for n in 1..=2 * TIMING_PACKET_COUNT {
            let echo = if n == bad_round { packet(n + 100) } else { packet(n) };
            actions.push(host_measure_timing(&mut state, echo, 10));
        }
        assert_eq!(
            actions[(bad_round - 1) as usize],
            HostAction::Abort(TimingError::WrongSequenceNumber)
        );
        assert!(actions.iter().all(|action| !matches!(action, HostAction::Finish { .. })));
        for action in &actions[bad_round as usize..] {
            assert_eq!(*action, HostAction::Abort(TimingError::NotProbing));
        }
    }
}

#[test]
fn host_expects_nothing_once_it_has_finished() {
    let (mut state, _) = HostTiming::start();
    for n in 1..=TIMING_PACKET_COUNT {
        host_measure_timing(&mut state, packet(n), 10);
    }
    assert_eq!(state.awaiting, None);
    assert_eq!(
        host_measure_timing(&mut state, packet(11), 10),
        HostAction::Abort(TimingError::NotProbing)
    );
}

#[test]
fn client_echoes_ten_packets_unchanged_and_swallows_the_closing_one() {
    let mut state = ClientTiming::start();
    for n in [1u64, 2, 3, 4, 5, 6, 7, 8, 9, 10] {
        assert!(!state.is_done());
        assert_eq!(client_measure_timing(&mut state, packet(n)), Some(packet(n)));
    }
    assert!(!state.is_done());
    assert_eq!(client_measure_timing(&mut state, packet(11)), None);
    assert!(state.is_done());
    assert_eq!(state.received, 11);
}

#[test]
fn client_checks_no_sequence_number() {
    let mut state = ClientTiming::start();
    assert_eq!(client_measure_timing(&mut state, packet(77)), Some(packet(77)));
    assert_eq!(client_measure_timing(&mut state, packet(0)), Some(packet(0)));
}

#[test]
fn client_answers_nothing_once_it_is_done() {
    let mut state = ClientTiming { received: 11 };
    assert_eq!(client_measure_timing(&mut state, packet(12)), None);
    assert_eq!(state.received, 11);
}
