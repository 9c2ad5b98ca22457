use lockstep::messages::{Handshake, SetInputDelay, TimingPacket};
use lockstep::session::{net_thread, NetAction, NetOutcome, NetState, Phase, ProtocolError};
use lockstep::wire::{deserialize_item, serialize_item, FrameRead};

fn framed(payload: &[u8]) -> Vec<u8> {
    let mut out = Vec::new();
    serialize_item(&mut out, payload);
    out
}

/// Splits a stream of whole frames into its payloads.
fn payloads(stream: &[u8]) -> Vec<Vec<u8>> {
    let mut at = 0;
    let mut out = Vec::new();
    while at < stream.len() {
        match deserialize_item(&stream[at..]) {
            FrameRead::Complete { payload, consumed } => {
                out.push(payload);
                at += consumed;
            }
            FrameRead::Incomplete { .. } => panic!("the stream ends inside a frame"),
        }
    }
    out
}

struct Peer {
    state: Option<NetState>,
    inbox: Vec<Vec<u8>>,
    sent: Vec<Vec<u8>>,
    result: Option<(String, SetInputDelay)>,
    error: Option<ProtocolError>,
}

impl Peer {
    fn open(is_host: bool, name: &str) -> (Peer, Vec<u8>) {
        let (state, action) = NetState::new(is_host, String::from(name));
        assert!(matches!(action.outcome, NetOutcome::Pending));
        let peer = Peer {
            state: Some(state),
            inbox: Vec::new(),
            sent: payloads(&action.send),
            result: None,
            error: None,
        };
        (peer, action.send)
    }

    /// Hands the peer every frame of `stream`; returns what it wrote.
    fn receive(&mut self, stream: &[u8], elapsed: u128) -> Vec<u8> {
        let mut written = Vec::new();
        for payload in payloads(stream) {
            self.inbox.push(payload.clone());
            let state = self.state.take().unwrap();
            let (state, NetAction { send, outcome }) = net_thread(state, &payload, elapsed);
            self.state = Some(state);
            self.sent.extend(payloads(&send));
            written.extend_from_slice(&send);
            match outcome {
                NetOutcome::Pending => {}
                NetOutcome::Established { handshake, set_input_delay } => {
                    self.result = Some((handshake.my_name, set_input_delay));
                }
                NetOutcome::Aborted(error) => self.error = Some(error),
            }
        }
        written
    }
}

/// Runs both peers against each other until neither writes anything.
fn run(host_name: &str, client_name: &str, latency: u128) -> (Peer, Peer) {
    let (mut host, mut to_client) = Peer::open(true, host_name);
    let (mut client, mut to_host) = Peer::open(false, client_name);
    let mut rounds = 0;
    while !to_client.is_empty() || !to_host.is_empty() {
        let from_client = client.receive(&to_client, 0);
        let from_host = host.receive(&to_host, latency);
        to_host = from_client;
        to_client = from_host;
        rounds += 1;
        assert!(rounds < 100, "setup does not come to rest");
    }
    (host, client)
}

#[test]
fn setup_opens_with_the_own_handshake() {
    let (state, action) = NetState::new(true, String::from("alice"));
    assert!(state.is_host);
    assert_eq!(state.my_name, "alice");
    assert!(matches!(state.phase, Phase::AwaitingHandshake));
    assert!(matches!(action.outcome, NetOutcome::Pending));
    let expected = framed(&Handshake { my_name: String::from("alice") }.encode().unwrap());
    assert_eq!(action.send, expected);
    assert_eq!(
        action.send,
        vec![0, 0, 0, 13, b'a', b'l', b'i', b'c', b'e', 5, 0, 0, 0, 5, 0, 0, 0]
    );
}

#[test]
fn both_peers_end_with_the_same_input_delay() {
    for latency in [0u128, 10_000, 16_000, 50_000, 123_456] {
        let (host, client) = run("alice", "bob", latency);
        let expected = SetInputDelay { input_delay: (latency / 16_000) as u64 + 2 };
        assert_eq!(host.error, None);
        assert_eq!(client.error, None);
        assert_eq!(host.result, Some((String::from("bob"), expected)));
        assert_eq!(client.result, Some((String::from("alice"), expected)));
        assert!(matches!(host.state.as_ref().unwrap().phase, Phase::Established));
        assert!(matches!(client.state.as_ref().unwrap().phase, Phase::Established));
    }
}

#[test]
fn messages_go_over_the_wire_in_the_required_order() {
    let (host, client) = run("alice", "bob", 20_000);
    // Host: handshake, probes 1 to 10, the closing packet 11, the delay.
    assert_eq!(host.sent.len(), 13);
    assert_eq!(host.sent[0], Handshake { my_name: String::from("alice") }.encode().unwrap());
    for n in 1..=11u64 {
        assert_eq!(host.sent[n as usize], TimingPacket { sequence_number: n }.encode());
    }
    assert_eq!(host.sent[12], SetInputDelay { input_delay: 3 }.encode());
    // Client: handshake, then the ten echoes and nothing else.
    assert_eq!(client.sent.len(), 11);
    assert_eq!(client.sent[0], Handshake { my_name: String::from("bob") }.encode().unwrap());
    for n in 1..=10u64 {
        assert_eq!(client.sent[n as usize], TimingPacket { sequence_number: n }.encode());
    }
    assert_eq!(client.inbox.len(), 13);
}

#[test]
fn the_longest_round_trip_sets_the_delay() {
    let (mut host, _) = Peer::open(true, "alice");
    host.receive(&framed(&Handshake { my_name: String::from("bob") }.encode().unwrap()), 0);
    let elapsed = [100u128, 200, 70_000, 100, 100, 100, 100, 100, 100, 100];
    for (i, micros) in elapsed.iter().enumerate() {
        let echo = TimingPacket { sequence_number: i as u64 + 1 };
        host.receive(&framed(&echo.encode()), *micros);
    }
    assert_eq!(host.result, Some((String::from("bob"), SetInputDelay { input_delay: 6 })));
}

#[test]
fn identical_names_are_fatal_for_both_peers() {
    let (host, client) = run("same", "same", 1_000);
    assert_eq!(host.error, Some(ProtocolError::SameName));
    assert_eq!(client.error, Some(ProtocolError::SameName));
    assert_eq!(host.result, None);
    assert_eq!(client.result, None);
    assert!(matches!(host.state.as_ref().unwrap().phase, Phase::Failed));
    // Nothing but the handshake was ever written.
    assert_eq!(host.sent.len(), 1);
    assert_eq!(client.sent.len(), 1);
}

#[test]
fn wrong_sequence_number_aborts_and_no_delay_is_sent() {
    for bad_round in 1..=10u64 {
        let (mut host, _) = Peer::open(true, "alice");
        host.receive(&framed(&Handshake { my_name: String::from("bob") }.encode().unwrap()), 0);
        for n in 1..=12u64 {
            let echo = if n == bad_round { n + 1 } else { n };
            host.receive(&framed(&TimingPacket { sequence_number: echo }.encode()), 5_000);
            if n == bad_round {
                assert_eq!(host.error, Some(ProtocolError::WrongSequenceNumber));
            }
        }
        assert_eq!(host.result, None);
        assert!(matches!(host.state.as_ref().unwrap().phase, Phase::Failed));
        // The handshake and the probes up to the bad round, and nothing after.
        assert_eq!(host.sent.len(), 1 + bad_round as usize);
        for payload in &host.sent[1..] {
            assert!(TimingPacket::decode(payload).unwrap().sequence_number <= 10);
        }
    }
}

#[test]
fn malformed_handshake_aborts() {
    let (mut host, _) = Peer::open(true, "alice");
    let written = host.receive(&framed(&[1, 2, 3]), 0);
    assert!(written.is_empty());
    assert_eq!(host.error, Some(ProtocolError::Malformed));
    assert!(matches!(host.state.as_ref().unwrap().phase, Phase::Failed));
}

#[test]
fn malformed_timing_packet_aborts_either_side() {
    let hello = framed(&Handshake { my_name: String::from("bob") }.encode().unwrap());
    let (mut host, _) = Peer::open(true, "alice");
    host.receive(&hello, 0);
    host.receive(&framed(&[1, 2, 3, 4, 5, 6, 7]), 0);
    assert_eq!(host.error, Some(ProtocolError::Malformed));
    let (mut client, _) = Peer::open(false, "alice");
    client.receive(&hello, 0);
    client.receive(&framed(&[]), 0);
    assert_eq!(client.error, Some(ProtocolError::Malformed));
}

#[test]
fn malformed_input_delay_aborts() {
    let (mut client, _) = Peer::open(false, "bob");
    client.receive(&framed(&Handshake { my_name: String::from("alice") }.encode().unwrap()), 0);
    for n in 1..=11u64 {
        client.receive(&framed(&TimingPacket { sequence_number: n }.encode()), 0);
    }
    assert!(matches!(client.state.as_ref().unwrap().phase, Phase::AwaitingDelay { .. }));
    client.receive(&framed(&[9]), 0);
    assert_eq!(client.error, Some(ProtocolError::Malformed));
    assert_eq!(client.result, None);
}

#[test]
fn responder_waits_after_the_handshake() {
    let (mut client, _) = Peer::open(false, "bob");
    let written =
        client.receive(&framed(&Handshake { my_name: String::from("alice") }.encode().unwrap()), 0);
    assert!(written.is_empty());
    assert!(matches!(
        client.state.as_ref().unwrap().phase,
        Phase::Echoing { .. }
    ));
}

#[test]
fn initiator_probes_right_after_the_handshake() {
    let (mut host, _) = Peer::open(true, "alice");
    let written =
        host.receive(&framed(&Handshake { my_name: String::from("bob") }.encode().unwrap()), 0);
    assert_eq!(written, framed(&TimingPacket { sequence_number: 1 }.encode()));
}

#[test]
fn no_frame_is_expected_once_setup_is_over() {
    let (mut host, mut client) = run("alice", "bob", 1_000);
    let written = host.receive(&framed(&TimingPacket { sequence_number: 1 }.encode()), 0);
    assert!(written.is_empty());
    assert_eq!(host.error, Some(ProtocolError::NotExpected));
    assert!(matches!(host.state.as_ref().unwrap().phase, Phase::Established));
    client.receive(&framed(&SetInputDelay { input_delay: 9 }.encode()), 0);
    assert_eq!(client.error, Some(ProtocolError::NotExpected));
    assert_eq!(
        client.result,
        Some((String::from("alice"), SetInputDelay { input_delay: 2 }))
    );
}
