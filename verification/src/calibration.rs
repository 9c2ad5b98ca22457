//! Latency calibration: the exchange of timing packets from which the
//! session's input delay is derived.
//!
//! The initiator probes the connection a fixed number of times and keeps the
//! longest round trip it saw; the responder echoes. Each side is a state
//! machine that is handed one received packet at a time and answers with what
//! to do next. Sending, receiving and taking the time are the caller's.

use crate::messages::{SetInputDelay, TimingPacket};
use vstd::prelude::*;

verus! {

/// The number of timed round trips.
pub const TIMING_PACKET_COUNT: u64 = 10;

/// The length of one tick in microseconds: a sixtieth of a second, in whole
/// milliseconds.
pub const TICK_TIME_MICROS: u128 = 16_000;

/// The input delay, in ticks, for a longest round trip of
/// `max_round_trip_micros`: the whole ticks that the round trip spans, one
/// tick of margin for the jitter of the way back, and one of scheduling
/// slack.
pub open spec fn input_delay_ticks(max_round_trip_micros: u128) -> nat {
    (max_round_trip_micros / TICK_TIME_MICROS + 2) as nat
}

/// The delay as it is put on the wire: `input_delay_ticks`, reduced modulo
/// 2^64 into the message's field.
pub open spec fn input_delay_message(max_round_trip_micros: u128) -> SetInputDelay {
    SetInputDelay {
        input_delay: (input_delay_ticks(max_round_trip_micros) % 0x1_0000_0000_0000_0000) as u64,
    }
}

/// Why calibration was given up.
#[derive(Clone, Copy, Debug, PartialEq, Eq, Structural)]
pub enum TimingError {
    /// The echo does not carry the sequence number of the probe in flight.
    WrongSequenceNumber,
    /// A packet arrived although no probe is in flight.
    NotProbing,
}

/// What the initiator does next.
#[derive(Clone, Copy, Debug, PartialEq, Eq, Structural)]
pub enum HostAction {
    /// Send this probe, flush, and time the round trip from there.
    Probe(TimingPacket),
    /// All round trips are timed. Send `last`, which nobody answers, then
    /// `delay`.
    Finish { last: TimingPacket, delay: SetInputDelay },
    /// Give the session up. Nothing is sent.
    Abort(TimingError),
}

/// The initiator's side of calibration.
#[derive(Clone, Copy, Debug)]
pub struct HostTiming {
    /// The sequence number of the probe in flight; `None` once calibration
    /// is over, finished or given up.
    pub awaiting: Option<u64>,
    /// The longest round trip seen so far, in microseconds.
    pub max_elapsed_micros: u128,
}

/// The responder's side of calibration.
#[derive(Clone, Copy, Debug)]
pub struct ClientTiming {
    /// The number of timing packets received so far.
    pub received: u64,
}

/// The larger of two durations.
pub open spec fn longer(a: u128, b: u128) -> u128 {
    if a >= b {
        a
    } else {
        b
    }
}

/// The initiator's transition: the state and the action that follow when
/// `echo` arrives `elapsed_micros` after the probe in flight was sent.
pub open spec fn host_next(state: HostTiming, echo: TimingPacket, elapsed_micros: u128) -> (
    HostTiming,
    HostAction,
) {
    match state.awaiting {
        None => (state, HostAction::Abort(TimingError::NotProbing)),
        Some(expected) => {
            let max = longer(state.max_elapsed_micros, elapsed_micros);
            if echo.sequence_number != expected {
                (
                    HostTiming { awaiting: None, max_elapsed_micros: max },
                    HostAction::Abort(TimingError::WrongSequenceNumber),
                )
            } else if expected < TIMING_PACKET_COUNT {
                (
                    HostTiming { awaiting: Some((expected + 1) as u64), max_elapsed_micros: max },
                    HostAction::Probe(TimingPacket { sequence_number: (expected + 1) as u64 }),
                )
            } else {
                (
                    HostTiming { awaiting: None, max_elapsed_micros: max },
                    HostAction::Finish {
                        last: TimingPacket {
                            sequence_number: (TIMING_PACKET_COUNT + 1) as u64,
                        },
                        delay: input_delay_message(max),
                    },
                )
            }
        },
    }
}

/// The responder's transition: the state that follows a timing packet, and
/// the echo to send, if the packet is answered. The first
/// `TIMING_PACKET_COUNT` packets are echoed unchanged; the one after them
/// closes calibration and is not answered.
pub open spec fn client_next(state: ClientTiming, packet: TimingPacket) -> (
    ClientTiming,
    Option<TimingPacket>,
) {
    if state.received < TIMING_PACKET_COUNT {
        (ClientTiming { received: (state.received + 1) as u64 }, Some(packet))
    } else if state.received == TIMING_PACKET_COUNT {
        (ClientTiming { received: (state.received + 1) as u64 }, None)
    } else {
        (state, None)
    }
}

impl HostTiming {
    /// The state in which the first probe is in flight.
    pub open spec fn initial() -> HostTiming {
        HostTiming { awaiting: Some(1), max_elapsed_micros: 0 }
    }

    /// Opens calibration: the state to keep and the first probe to send.
    pub fn start() -> (r: (HostTiming, TimingPacket))
        ensures
            r.0 == HostTiming::initial(),
            r.1 == (TimingPacket { sequence_number: 1 }),
    {
        (
            HostTiming { awaiting: Some(1), max_elapsed_micros: 0 },
            TimingPacket { sequence_number: 1 },
        )
    }
}

impl ClientTiming {
    /// The state in which nothing has been received.
    pub open spec fn initial() -> ClientTiming {
        ClientTiming { received: 0 }
    }

    /// Whether the responder's part is over: every probe was echoed and the
    /// closing packet came in.
    pub open spec fn done(self) -> bool {
        self.received > TIMING_PACKET_COUNT
    }

    /// Opens calibration: nothing has been received.
    pub fn start() -> (state: ClientTiming)
        ensures
            state == ClientTiming::initial(),
    {
        ClientTiming { received: 0 }
    }

    /// Whether the responder's part is over.
    pub fn is_done(&self) -> (done: bool)
        ensures
            done == self.done(),
    {
        self.received > TIMING_PACKET_COUNT
    }
}

/// Computes the input delay for a longest round trip.
pub fn input_delay_for(max_round_trip_micros: u128) -> (delay: SetInputDelay)
    ensures
        delay == input_delay_message(max_round_trip_micros),
        input_delay_ticks(max_round_trip_micros) <= u64::MAX ==> delay.input_delay
            == input_delay_ticks(max_round_trip_micros),
{
    let ticks: u128 = max_round_trip_micros / TICK_TIME_MICROS + 2;
    SetInputDelay { input_delay: (ticks % 0x1_0000_0000_0000_0000) as u64 }
}

/// Takes the initiator one step: `echo` came back `elapsed_micros` after the
/// probe in flight was sent.
pub fn host_measure_timing(state: &mut HostTiming, echo: TimingPacket, elapsed_micros: u128) -> (action:
    HostAction)
    ensures
        (*final(state), action) == host_next(*old(state), echo, elapsed_micros),
{
    match state.awaiting {
        None => HostAction::Abort(TimingError::NotProbing),
        Some(expected) => {
            if elapsed_micros > state.max_elapsed_micros {
                state.max_elapsed_micros = elapsed_micros;
            }
            if echo.sequence_number != expected {
                state.awaiting = None;
                HostAction::Abort(TimingError::WrongSequenceNumber)
            } else if expected < TIMING_PACKET_COUNT {
                state.awaiting = Some(expected + 1);
                HostAction::Probe(TimingPacket { sequence_number: expected + 1 })
            } else {
                state.awaiting = None;
                HostAction::Finish {
                    last: TimingPacket { sequence_number: TIMING_PACKET_COUNT + 1 },
                    delay: input_delay_for(state.max_elapsed_micros),
                }
            }
        },
    }
}

/// Takes the responder one step: `packet` came in.
pub fn client_measure_timing(state: &mut ClientTiming, packet: TimingPacket) -> (echo: Option<
    TimingPacket,
>)
    ensures
        (*final(state), echo) == client_next(*old(state), packet),
{
    if state.received < TIMING_PACKET_COUNT {
        state.received = state.received + 1;
        Some(packet)
    } else if state.received == TIMING_PACKET_COUNT {
        state.received = state.received + 1;
        None
    } else {
        None
    }
}

/// The initiator's run over a sequence of echoes, each with the time it took
/// to come back: the state reached and the actions taken, in order.
pub open spec fn host_run(state: HostTiming, echoes: Seq<(TimingPacket, u128)>) -> (
    HostTiming,
    Seq<HostAction>,
)
    decreases echoes.len(),
{
    if echoes.len() == 0 {
        (state, Seq::empty())
    } else {
        let before = host_run(state, echoes.drop_last());
        let step = host_next(before.0, echoes.last().0, echoes.last().1);
        (step.0, before.1.push(step.1))
    }
}

/// What the initiator receives from a responder that echoes every probe at
/// once over a connection whose round trip always takes `latency_micros`.
pub open spec fn prompt_echoes(latency_micros: u128) -> Seq<(TimingPacket, u128)> {
    Seq::new(
        TIMING_PACKET_COUNT as nat,
        |i: int| (TimingPacket { sequence_number: (i + 1) as u64 }, latency_micros),
    )
}

proof fn lemma_prompt_run(latency_micros: u128, rounds: nat)
    requires
        rounds <= TIMING_PACKET_COUNT,
    ensures
        ({
            let run = host_run(
                HostTiming::initial(),
                prompt_echoes(latency_micros).take(rounds as int),
            );
            &&& run.1.len() == rounds
            &&& run.0.max_elapsed_micros == if rounds == 0 {
                0
            } else {
                latency_micros
            }
            &&& rounds < TIMING_PACKET_COUNT ==> run.0.awaiting == Some((rounds + 1) as u64)
            &&& rounds == TIMING_PACKET_COUNT ==> run.1.last() == HostAction::Finish {
                last: TimingPacket { sequence_number: (TIMING_PACKET_COUNT + 1) as u64 },
                delay: input_delay_message(latency_micros),
            }
        }),
    decreases rounds,
{
    let echoes = prompt_echoes(latency_micros).take(rounds as int);
    if rounds > 0 {
        lemma_prompt_run(latency_micros, (rounds - 1) as nat);
        assert(echoes.drop_last() =~= prompt_echoes(latency_micros).take(rounds - 1));
    }
}

/// Against a responder that echoes every probe at once, with a round trip
/// that always takes `latency_micros`, the initiator ends calibration by
/// assigning the delay `latency_micros / TICK_TIME_MICROS + 2`.
pub proof fn lemma_fixed_latency_delay(latency_micros: u128)
    ensures
        host_run(HostTiming::initial(), prompt_echoes(latency_micros)).1.last()
            == (HostAction::Finish {
            last: TimingPacket { sequence_number: (TIMING_PACKET_COUNT + 1) as u64 },
            delay: input_delay_message(latency_micros),
        }),
        latency_micros / TICK_TIME_MICROS + 2 <= u64::MAX ==> input_delay_message(
            latency_micros,
        ).input_delay == latency_micros / TICK_TIME_MICROS + 2,
{
    lemma_prompt_run(latency_micros, TIMING_PACKET_COUNT as nat);
    assert(prompt_echoes(latency_micros).take(TIMING_PACKET_COUNT as int) =~= prompt_echoes(
        latency_micros,
    ));
}

/// Whether some action gives calibration up over a wrong sequence number.
pub open spec fn aborts_on_sequence(actions: Seq<HostAction>) -> bool {
    exists|i: int|
        0 <= i < actions.len() && #[trigger] actions[i] == HostAction::Abort(
            TimingError::WrongSequenceNumber,
        )
}

/// Whether some action assigns the input delay.
pub open spec fn assigns_delay(actions: Seq<HostAction>) -> bool {
    exists|i: int| 0 <= i < actions.len() && #[trigger] actions[i] is Finish
}

proof fn lemma_run_outcomes(echoes: Seq<(TimingPacket, u128)>)
    ensures
        ({
            let run = host_run(HostTiming::initial(), echoes);
            &&& run.1.len() == echoes.len()
            &&& run.0.awaiting is Some ==> !aborts_on_sequence(run.1) && !assigns_delay(run.1)
            &&& !(aborts_on_sequence(run.1) && assigns_delay(run.1))
        }),
    decreases echoes.len(),
{
    if echoes.len() > 0 {
        lemma_run_outcomes(echoes.drop_last());
        let before = host_run(HostTiming::initial(), echoes.drop_last());
        let step = host_next(before.0, echoes.last().0, echoes.last().1);
        let actions = before.1.push(step.1);
        assert forall|i: int| 0 <= i < before.1.len() implies actions[i] == before.1[i] by {}
        if aborts_on_sequence(actions) && !aborts_on_sequence(before.1) {
            let i = choose|i: int|
                0 <= i < actions.len() && #[trigger] actions[i] == HostAction::Abort(
                    TimingError::WrongSequenceNumber,
                );
            assert(i == before.1.len()) by {
                if i < before.1.len() {
                    assert(before.1[i] == actions[i]);
                }
            }
        }
        if assigns_delay(actions) && !assigns_delay(before.1) {
            let i = choose|i: int| 0 <= i < actions.len() && #[trigger] actions[i] is Finish;
            assert(i == before.1.len()) by {
                if i < before.1.len() {
                    assert(before.1[i] == actions[i]);
                }
            }
        }
    }
}

/// If an echo ever carries the wrong sequence number, calibration is given
/// up and the input delay is never assigned: whatever the initiator
/// receives, before or after, no action of the run is a `Finish`.
pub proof fn lemma_wrong_sequence_assigns_no_delay(echoes: Seq<(TimingPacket, u128)>)
    requires
        aborts_on_sequence(host_run(HostTiming::initial(), echoes).1),
    ensures
        !assigns_delay(host_run(HostTiming::initial(), echoes).1),
        host_run(HostTiming::initial(), echoes).0.awaiting is None,
{
    lemma_run_outcomes(echoes);
}

} // verus!
