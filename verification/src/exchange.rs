//! Whole runs of session setup: what a peer writes over all its steps, and
//! what follows for the two peers of one connection.

use crate::calibration::{
    host_next, input_delay_message, longer, ClientTiming, HostTiming, TIMING_PACKET_COUNT,
};
use crate::messages::{
    lemma_number_round_trip, lemma_text_round_trip, text_payload, SetInputDelay, TimingPacket,
};
use crate::session::{
    net_next, net_start, ActionModel, NetModel, OutcomeModel, PhaseModel, ProtocolError,
};
use crate::wire::{frame, frames, lemma_stream_round_trip, payloads_in};
use vstd::bytes::lemma_auto_spec_u32_to_from_le_bytes;
use vstd::prelude::*;
use vstd::utf8::encode_utf8;

verus! {

/// A peer's run over the frames it receives, each with the time since the
/// peer last wrote: the state reached and the actions taken, in order.
pub open spec fn net_run(state: NetModel, events: Seq<(Seq<u8>, u128)>) -> (
    NetModel,
    Seq<ActionModel>,
)
    decreases events.len(),
{
    if events.len() == 0 {
        (state, Seq::empty())
    } else {
        let before = net_run(state, events.drop_last());
        let step = net_next(before.0, events.last().0, events.last().1);
        (step.0, before.1.push(step.1))
    }
}

/// Everything that the actions write, in order.
pub open spec fn written(actions: Seq<ActionModel>) -> Seq<u8>
    decreases actions.len(),
{
    if actions.len() == 0 {
        Seq::empty()
    } else {
        written(actions.drop_last()) + actions.last().send
    }
}

/// The longest of the round trips; zero when there is none.
pub open spec fn longest(round_trips: Seq<u128>) -> u128
    decreases round_trips.len(),
{
    if round_trips.len() == 0 {
        0
    } else {
        longer(longest(round_trips.drop_last()), round_trips.last())
    }
}

/// The payload of the timing packet with sequence number `n`.
pub open spec fn probe(n: int) -> Seq<u8> {
    (TimingPacket { sequence_number: n as u64 }).payload()
}

/// The payloads that reach the initiator when the responder plays by the
/// rules: the responder's handshake, then the echo of each probe.
pub open spec fn host_inbox(client_name: Seq<char>) -> Seq<Seq<u8>> {
    Seq::new(
        1 + TIMING_PACKET_COUNT as nat,
        |i: int|
            if i == 0 {
                text_payload(client_name)
            } else {
                probe(i)
            },
    )
}

/// The payloads that reach the responder when the initiator plays by the
/// rules: the initiator's handshake, each probe, the closing packet, and the
/// input delay.
pub open spec fn client_inbox(host_name: Seq<char>, delay: SetInputDelay) -> Seq<Seq<u8>> {
    Seq::new(
        3 + TIMING_PACKET_COUNT as nat,
        |i: int|
            if i == 0 {
                text_payload(host_name)
            } else if i <= TIMING_PACKET_COUNT + 1 {
                probe(i)
            } else {
                delay.payload()
            },
    )
}

/// The initiator's events: its inbox, the handshake after `waited`
/// microseconds and the echo of probe `i + 1` after `round_trips[i]`.
pub open spec fn host_events(client_name: Seq<char>, waited: u128, round_trips: Seq<u128>) -> Seq<
    (Seq<u8>, u128),
> {
    Seq::new(
        1 + TIMING_PACKET_COUNT as nat,
        |i: int|
            (
                host_inbox(client_name)[i],
                if i == 0 {
                    waited
                } else {
                    round_trips[i - 1]
                },
            ),
    )
}

/// The responder's events: its inbox, frame `i` after `waits[i]`
/// microseconds.
pub open spec fn client_events(host_name: Seq<char>, delay: SetInputDelay, waits: Seq<u128>) -> Seq<
    (Seq<u8>, u128),
> {
    Seq::new(
        3 + TIMING_PACKET_COUNT as nat,
        |i: int| (client_inbox(host_name, delay)[i], waits[i]),
    )
}

#[verifier::rlimit(50)]
proof fn lemma_host_progress(
    host_name: Seq<char>,
    client_name: Seq<char>,
    waited: u128,
    round_trips: Seq<u128>,
    echoes: int,
)
    requires
        host_name != client_name,
        encode_utf8(host_name).len() <= u32::MAX,
        encode_utf8(client_name).len() <= u32::MAX,
        round_trips.len() == TIMING_PACKET_COUNT,
        0 <= echoes <= TIMING_PACKET_COUNT,
    ensures
        ({
            let delay = input_delay_message(longest(round_trips));
            let start = net_start(true, host_name);
            let run = net_run(
                start.0,
                host_events(client_name, waited, round_trips).take(1 + echoes),
            );
            &&& run.1.len() == 1 + echoes
            &&& run.0.is_host
            &&& run.0.my_name == host_name
            &&& echoes < TIMING_PACKET_COUNT ==> {
                &&& run.0.phase == PhaseModel::Probing {
                    their_name: client_name,
                    host: HostTiming {
                        awaiting: Some((echoes + 1) as u64),
                        max_elapsed_micros: longest(round_trips.take(echoes)),
                    },
                }
                &&& run.1.last().outcome == OutcomeModel::Pending
                &&& start.1.send + written(run.1) == frames(
                    client_inbox(host_name, delay).take(2 + echoes),
                )
            }
            &&& echoes == TIMING_PACKET_COUNT ==> {
                &&& run.0.phase == PhaseModel::Established
                &&& run.1.last().outcome == OutcomeModel::Established {
                    their_name: client_name,
                    set_input_delay: delay,
                }
                &&& start.1.send + written(run.1) == frames(client_inbox(host_name, delay))
            }
        }),
    decreases echoes,
{
    let delay = input_delay_message(longest(round_trips));
    let start = net_start(true, host_name);
    let events = host_events(client_name, waited, round_trips);
    let inbox = client_inbox(host_name, delay);
    let taken = events.take(1 + echoes);
    let run = net_run(start.0, taken);
    assert(taken.drop_last() =~= events.take(echoes));
    assert(taken.last() == events[echoes]);
    if echoes == 0 {
        assert(events.take(0) =~= Seq::<(Seq<u8>, u128)>::empty());
        let before = net_run(start.0, taken.drop_last());
        assert(before.1 =~= Seq::<ActionModel>::empty());
        lemma_text_round_trip(client_name);
        assert(round_trips.take(0) =~= Seq::<u128>::empty());
        assert(run.1.drop_last() =~= Seq::<ActionModel>::empty());
        assert(written(run.1) == written(run.1.drop_last()) + run.1.last().send);
        assert(written(run.1) =~= frame(probe(1)));
        lemma_frames_push(inbox.take(1), probe(1));
        assert(inbox.take(2) =~= inbox.take(1).push(probe(1)));
        lemma_frames_push(inbox.take(0), text_payload(host_name));
        assert(inbox.take(1) =~= inbox.take(0).push(text_payload(host_name)));
        assert(inbox.take(0) =~= Seq::<Seq<u8>>::empty());
        assert(frames(inbox.take(1)) =~= frame(text_payload(host_name)));
    } else {
        lemma_host_progress(host_name, client_name, waited, round_trips, echoes - 1);
        let before = net_run(start.0, taken.drop_last());
        let step = net_next(before.0, taken.last().0, taken.last().1);
        lemma_number_round_trip(echoes as u64);
        assert(TimingPacket::parse(probe(echoes)) == Some(
            TimingPacket { sequence_number: echoes as u64 },
        ));
        assert(round_trips.take(echoes).drop_last() =~= round_trips.take(echoes - 1));
        assert(round_trips.take(echoes).last() == round_trips[echoes - 1]);
        assert(run.1.drop_last() =~= before.1);
        assert(written(run.1) == written(before.1) + step.1.send);
        if echoes < TIMING_PACKET_COUNT {
            assert(step.1.send == frame(probe(echoes + 1)));
            lemma_frames_push(inbox.take(1 + echoes), probe(echoes + 1));
            assert(inbox.take(2 + echoes) =~= inbox.take(1 + echoes).push(probe(echoes + 1)));
            assert(start.1.send + written(run.1) =~= (start.1.send + written(before.1))
                + step.1.send);
        } else {
            assert(round_trips.take(echoes) =~= round_trips);
            assert(step.1.send == frame(probe(TIMING_PACKET_COUNT + 1)) + frame(
                delay.payload(),
            ));
            lemma_frames_push(inbox.take(1 + echoes), probe(echoes + 1));
            assert(inbox.take(2 + echoes) =~= inbox.take(1 + echoes).push(probe(echoes + 1)));
            lemma_frames_push(inbox.take(2 + echoes), delay.payload());
            assert(inbox =~= inbox.take(2 + echoes).push(delay.payload()));
            assert(start.1.send + written(run.1) =~= (start.1.send + written(before.1)) + frame(
                probe(TIMING_PACKET_COUNT + 1),
            ) + frame(delay.payload()));
            assert(events.take(1 + echoes) =~= events);
        }
    }
}

#[verifier::rlimit(50)]
proof fn lemma_client_progress(
    host_name: Seq<char>,
    client_name: Seq<char>,
    delay: SetInputDelay,
    waits: Seq<u128>,
    received: int,
)
    requires
        host_name != client_name,
        encode_utf8(host_name).len() <= u32::MAX,
        encode_utf8(client_name).len() <= u32::MAX,
        waits.len() == 3 + TIMING_PACKET_COUNT,
        1 <= received <= 3 + TIMING_PACKET_COUNT,
    ensures
        ({
            let start = net_start(false, client_name);
            let run = net_run(start.0, client_events(host_name, delay, waits).take(received));
            let packets = received - 1;
            &&& run.1.len() == received
            &&& !run.0.is_host
            &&& run.0.my_name == client_name
            &&& packets <= TIMING_PACKET_COUNT ==> {
                &&& run.0.phase == PhaseModel::Echoing {
                    their_name: host_name,
                    client: ClientTiming { received: packets as u64 },
                }
                &&& run.1.last().outcome == OutcomeModel::Pending
                &&& start.1.send + written(run.1) == frames(
                    host_inbox(client_name).take(received),
                )
            }
            &&& packets == TIMING_PACKET_COUNT + 1 ==> {
                &&& run.0.phase == PhaseModel::AwaitingDelay { their_name: host_name }
                &&& run.1.last().outcome == OutcomeModel::Pending
                &&& start.1.send + written(run.1) == frames(host_inbox(client_name))
            }
            &&& packets == TIMING_PACKET_COUNT + 2 ==> {
                &&& run.0.phase == PhaseModel::Established
                &&& run.1.last().outcome == OutcomeModel::Established {
                    their_name: host_name,
                    set_input_delay: delay,
                }
                &&& start.1.send + written(run.1) == frames(host_inbox(client_name))
            }
        }),
    decreases received,
{
    let start = net_start(false, client_name);
    let events = client_events(host_name, delay, waits);
    let outbox = host_inbox(client_name);
    let taken = events.take(received);
    let run = net_run(start.0, taken);
    let packets = received - 1;
    assert(taken.drop_last() =~= events.take(received - 1));
    assert(taken.last() == events[received - 1]);
    let before = net_run(start.0, taken.drop_last());
    let step = net_next(before.0, taken.last().0, taken.last().1);
    assert(run.1.drop_last() =~= before.1);
    assert(written(run.1) == written(before.1) + step.1.send);
    if received == 1 {
        assert(events.take(0) =~= Seq::<(Seq<u8>, u128)>::empty());
        assert(before.1 =~= Seq::<ActionModel>::empty());
        lemma_text_round_trip(host_name);
        assert(written(run.1) =~= Seq::<u8>::empty());
        lemma_frames_push(outbox.take(0), text_payload(client_name));
        assert(outbox.take(1) =~= outbox.take(0).push(text_payload(client_name)));
        assert(outbox.take(0) =~= Seq::<Seq<u8>>::empty());
        assert(frames(outbox.take(1)) =~= frame(text_payload(client_name)));
        assert(start.1.send + written(run.1) =~= start.1.send);
    } else {
        lemma_client_progress(host_name, client_name, delay, waits, received - 1);
        if packets <= TIMING_PACKET_COUNT {
            lemma_number_round_trip(packets as u64);
            assert(step.1.send == frame(probe(packets)));
            lemma_frames_push(outbox.take(packets), probe(packets));
            assert(outbox.take(received) =~= outbox.take(packets).push(probe(packets)));
            assert(start.1.send + written(run.1) =~= (start.1.send + written(before.1))
                + step.1.send);
        } else if packets == TIMING_PACKET_COUNT + 1 {
            lemma_number_round_trip(packets as u64);
            assert(step.1.send =~= Seq::<u8>::empty());
            assert(outbox.take(packets) =~= outbox);
            assert(start.1.send + written(run.1) =~= start.1.send + written(before.1));
        } else {
            lemma_number_round_trip(delay.input_delay);
            assert(step.1.send =~= Seq::<u8>::empty());
            assert(start.1.send + written(run.1) =~= start.1.send + written(before.1));
        }
    }
}

/// Whether a name is short enough to go over the wire whole: the payload of
/// its handshake is of a length that the prefix of a frame can hold.
pub open spec fn fits_a_frame(name: Seq<char>) -> bool {
    encode_utf8(name).len() + 8 <= u32::MAX
}

/// The two peers of one connection end setup with the same input delay.
///
/// Take two peers with different names, and let the initiator see the round
/// trips `round_trips`. Then what each peer writes over its run is, byte for
/// byte, the stream of frames that the other peer's run reads: the
/// handshake; the probes 1 to 10, each answered by its echo; the closing
/// packet, which is not answered; the input delay. Both runs end
/// established, each peer holding the other's name and both the delay that
/// the longest round trip gives.
pub proof fn lemma_setup_agrees(
    host_name: Seq<char>,
    client_name: Seq<char>,
    waited: u128,
    round_trips: Seq<u128>,
    waits: Seq<u128>,
)
    requires
        host_name != client_name,
        fits_a_frame(host_name),
        fits_a_frame(client_name),
        round_trips.len() == TIMING_PACKET_COUNT,
        waits.len() == 3 + TIMING_PACKET_COUNT,
    ensures
        ({
            let delay = input_delay_message(longest(round_trips));
            let host = net_start(true, host_name);
            let client = net_start(false, client_name);
            let host_run = net_run(host.0, host_events(client_name, waited, round_trips));
            let client_run = net_run(client.0, client_events(host_name, delay, waits));
            let from_host = host.1.send + written(host_run.1);
            let from_client = client.1.send + written(client_run.1);
            &&& from_host == frames(client_inbox(host_name, delay))
            &&& from_client == frames(host_inbox(client_name))
            &&& payloads_in(from_host, 3 + TIMING_PACKET_COUNT as nat) == client_inbox(
                host_name,
                delay,
            )
            &&& payloads_in(from_client, 1 + TIMING_PACKET_COUNT as nat) == host_inbox(
                client_name,
            )
            &&& host_run.0.phase == PhaseModel::Established
            &&& client_run.0.phase == PhaseModel::Established
            &&& host_run.1.last().outcome == OutcomeModel::Established {
                their_name: client_name,
                set_input_delay: delay,
            }
            &&& client_run.1.last().outcome == OutcomeModel::Established {
                their_name: host_name,
                set_input_delay: delay,
            }
        }),
{
    let delay = input_delay_message(longest(round_trips));
    lemma_host_progress(
        host_name,
        client_name,
        waited,
        round_trips,
        TIMING_PACKET_COUNT as int,
    );
    lemma_client_progress(host_name, client_name, delay, waits, 3 + TIMING_PACKET_COUNT);
    let host_all = host_events(client_name, waited, round_trips);
    assert(host_all.take(1 + TIMING_PACKET_COUNT) =~= host_all);
    let client_all = client_events(host_name, delay, waits);
    assert(client_all.take(3 + TIMING_PACKET_COUNT) =~= client_all);
    lemma_auto_spec_u32_to_from_le_bytes();
    let to_client = client_inbox(host_name, delay);
    let to_host = host_inbox(client_name);
    assert forall|i: int| 0 <= i < to_client.len() implies (#[trigger] to_client[i]).len()
        <= u32::MAX by {
        lemma_number_round_trip(i as u64);
        lemma_number_round_trip(delay.input_delay);
    }
    assert forall|i: int| 0 <= i < to_host.len() implies (#[trigger] to_host[i]).len()
        <= u32::MAX by {
        lemma_number_round_trip(i as u64);
    }
    lemma_stream_round_trip(to_client, Seq::empty());
    lemma_stream_round_trip(to_host, Seq::empty());
    assert(frames(to_client) + Seq::<u8>::empty() =~= frames(to_client));
    assert(frames(to_host) + Seq::<u8>::empty() =~= frames(to_host));
}

/// Whether some action establishes the session.
pub open spec fn establishes(actions: Seq<ActionModel>) -> bool {
    exists|i: int| 0 <= i < actions.len() && #[trigger] actions[i].outcome is Established
}

/// Whether some action gives the session up over `error`.
pub open spec fn gives_up(actions: Seq<ActionModel>, error: ProtocolError) -> bool {
    exists|i: int|
        0 <= i < actions.len() && #[trigger] actions[i].outcome == OutcomeModel::Aborted(error)
}

/// Whether `bytes` are one frame that carries a timing packet.
pub open spec fn one_timing_frame(bytes: Seq<u8>) -> bool {
    exists|n: u64| bytes == frame(#[trigger] probe(n as int))
}

/// Whether the action writes nothing, or one frame with a timing packet and
/// no more.
pub open spec fn writes_at_most_a_packet(action: ActionModel) -> bool {
    action.send == Seq::<u8>::empty() || one_timing_frame(action.send)
}

#[verifier::rlimit(50)]
proof fn lemma_run_outcomes(state: NetModel, events: Seq<(Seq<u8>, u128)>)
    requires
        state.phase is AwaitingHandshake || state.phase is Failed,
    ensures
        ({
            let run = net_run(state, events);
            &&& run.1.len() == events.len()
            &&& forall|i: int|
                0 <= i < run.1.len() && !(#[trigger] run.1[i].outcome is Established)
                    ==> writes_at_most_a_packet(run.1[i])
            &&& forall|i: int|
                0 <= i < run.1.len() && #[trigger] run.1[i].outcome is Aborted
                    ==> run.1[i].send == Seq::<u8>::empty()
            &&& run.0.phase is Failed ==> !establishes(run.1)
            &&& run.0.phase is Established ==> forall|i: int|
                0 <= i < run.1.len() && #[trigger] run.1[i].outcome is Aborted ==> run.1[i].outcome
                    == OutcomeModel::Aborted(ProtocolError::NotExpected)
            &&& !(run.0.phase is Failed) && !(run.0.phase is Established) ==> forall|i: int|
                0 <= i < run.1.len() ==> #[trigger] run.1[i].outcome is Pending
        }),
    decreases events.len(),
{
    if events.len() > 0 {
        lemma_run_outcomes(state, events.drop_last());
        let before = net_run(state, events.drop_last());
        let step = net_next(before.0, events.last().0, events.last().1);
        let actions = before.1.push(step.1);
        assert forall|i: int| 0 <= i < before.1.len() implies actions[i] == before.1[i] by {}
        assert(actions[before.1.len() as int] == step.1);
        if !(step.1.outcome is Established) && step.1.send != Seq::<u8>::empty() {
            match before.0.phase {
                PhaseModel::AwaitingHandshake => {
                    assert(step.1.send == frame(probe(1)));
                },
                PhaseModel::Probing { their_name, host } => {
                    let echo = TimingPacket::parse(events.last().0)->Some_0;
                    let next = host_next(host, echo, events.last().1);
                    let sent = next.1->Probe_0;
                    assert(step.1.send == frame(probe(sent.sequence_number as int)));
                },
                PhaseModel::Echoing { their_name, client } => {
                    let packet = TimingPacket::parse(events.last().0)->Some_0;
                    assert(step.1.send == frame(probe(packet.sequence_number as int)));
                },
                _ => {},
            }
        }
        if establishes(actions) && !establishes(before.1) {
            let i = choose|i: int|
                0 <= i < actions.len() && #[trigger] actions[i].outcome is Established;
            if i < before.1.len() {
                assert(before.1[i].outcome is Established);
            }
        }
    }
}

/// If an echo ever carries the wrong sequence number, the session is given
/// up and no input delay is ever sent. The delay goes out with the action
/// that establishes the session, behind the closing packet, and no action of
/// the run, before or after, is one: each writes nothing or one timing
/// packet, and those that give up write nothing.
pub proof fn lemma_wrong_sequence_sends_no_delay(
    is_host: bool,
    my_name: Seq<char>,
    events: Seq<(Seq<u8>, u128)>,
)
    requires
        gives_up(
            net_run(net_start(is_host, my_name).0, events).1,
            ProtocolError::WrongSequenceNumber,
        ),
    ensures
        ({
            let run = net_run(net_start(is_host, my_name).0, events);
            &&& run.0.phase is Failed
            &&& !establishes(run.1)
            &&& forall|i: int| 0 <= i < run.1.len() ==> writes_at_most_a_packet(#[trigger] run.1[i])
            &&& forall|i: int|
                0 <= i < run.1.len() && #[trigger] run.1[i].outcome is Aborted
                    ==> run.1[i].send == Seq::<u8>::empty()
        }),
{
    let run = net_run(net_start(is_host, my_name).0, events);
    lemma_run_outcomes(net_start(is_host, my_name).0, events);
    let i = choose|i: int|
        0 <= i < run.1.len() && #[trigger] run.1[i].outcome == OutcomeModel::Aborted(
            ProtocolError::WrongSequenceNumber,
        );
    assert(run.1[i].outcome is Aborted);
    assert(!(run.1[i].outcome is Pending));
    assert forall|j: int| 0 <= j < run.1.len() implies writes_at_most_a_packet(#[trigger] run.1[j]) by {
        if run.1[j].outcome is Established {
            assert(establishes(run.1));
        }
    }
}

/// Framing one more payload appends its frame.
proof fn lemma_frames_push(payloads: Seq<Seq<u8>>, payload: Seq<u8>)
    ensures
        frames(payloads.push(payload)) == frames(payloads) + frame(payload),
{
    assert(payloads.push(payload).drop_last() =~= payloads);
}

} // verus!
