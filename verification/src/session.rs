//! Session setup: the handshake, the calibration of latency and the
//! assignment of the input delay, as one state machine per peer.
//!
//! The machine is handed the payload of each frame as it arrives and says
//! what to write back and whether setup has ended. It knows from its state
//! alone which message a payload must hold; nothing on the wire says so.
//! Reading frames, writing bytes and taking the time are the caller's.

use crate::calibration::{
    client_measure_timing, client_next, host_measure_timing, host_next, ClientTiming, HostAction,
    HostTiming, TimingError,
};
use crate::messages::{text_payload, Handshake, SetInputDelay, TimingPacket};
use crate::wire::{frame, serialize_item};
use vstd::prelude::*;
use vstd::utf8::encode_utf8;

verus! {

/// Why setup was given up. Every one of these is fatal: there is no retry.
#[derive(Clone, Copy, Debug, PartialEq, Eq, Structural)]
pub enum ProtocolError {
    /// The peer's own name is too long to be put in a payload.
    NameTooLong,
    /// Both peers gave the same name.
    SameName,
    /// A payload does not have the shape of the message expected.
    Malformed,
    /// An echo does not carry the sequence number of the probe in flight.
    WrongSequenceNumber,
    /// A frame was handed in although setup is over.
    NotExpected,
}

/// Where a peer stands in setup.
#[derive(Debug)]
pub enum Phase {
    /// The own handshake is sent; the other peer's is awaited.
    AwaitingHandshake,
    /// Initiator: a probe is in flight.
    Probing { their_name: String, host: HostTiming },
    /// Responder: timing packets are awaited.
    Echoing { their_name: String, client: ClientTiming },
    /// Responder: calibration is over; the input delay is awaited.
    AwaitingDelay { their_name: String },
    /// Both peers hold the input delay.
    Established,
    /// Setup was given up.
    Failed,
}

/// One peer's setup. The initiator of calibration is the peer that listened
/// for the connection; no message decides it.
#[derive(Debug)]
pub struct NetState {
    pub is_host: bool,
    pub my_name: String,
    pub phase: Phase,
}

/// How setup stands after a step.
#[derive(Debug)]
pub enum NetOutcome {
    /// Setup goes on with the next frame.
    Pending,
    /// Setup has ended well: the other peer's handshake and the input delay
    /// of the session.
    Established { handshake: Handshake, set_input_delay: SetInputDelay },
    /// Setup is given up.
    Aborted(ProtocolError),
}

/// What a step asks of the caller: write `send` and flush (the round trip of
/// a probe is timed from there), then go by `outcome`.
#[derive(Debug)]
pub struct NetAction {
    pub send: Vec<u8>,
    pub outcome: NetOutcome,
}

/// `Phase` with each name as its characters.
pub enum PhaseModel {
    AwaitingHandshake,
    Probing { their_name: Seq<char>, host: HostTiming },
    Echoing { their_name: Seq<char>, client: ClientTiming },
    AwaitingDelay { their_name: Seq<char> },
    Established,
    Failed,
}

/// `NetState` with each name as its characters.
pub struct NetModel {
    pub is_host: bool,
    pub my_name: Seq<char>,
    pub phase: PhaseModel,
}

/// `NetOutcome` with the name as its characters.
pub enum OutcomeModel {
    Pending,
    Established { their_name: Seq<char>, set_input_delay: SetInputDelay },
    Aborted(ProtocolError),
}

/// `NetAction` with the bytes as a sequence and the name as its characters.
pub struct ActionModel {
    pub send: Seq<u8>,
    pub outcome: OutcomeModel,
}

impl View for Phase {
    type V = PhaseModel;

    open spec fn view(&self) -> PhaseModel {
        match *self {
            Phase::AwaitingHandshake => PhaseModel::AwaitingHandshake,
            Phase::Probing { their_name, host } => PhaseModel::Probing {
                their_name: their_name@,
                host,
            },
            Phase::Echoing { their_name, client } => PhaseModel::Echoing {
                their_name: their_name@,
                client,
            },
            Phase::AwaitingDelay { their_name } => PhaseModel::AwaitingDelay {
                their_name: their_name@,
            },
            Phase::Established => PhaseModel::Established,
            Phase::Failed => PhaseModel::Failed,
        }
    }
}

impl View for NetState {
    type V = NetModel;

    open spec fn view(&self) -> NetModel {
        NetModel { is_host: self.is_host, my_name: self.my_name@, phase: self.phase@ }
    }
}

impl View for NetOutcome {
    type V = OutcomeModel;

    open spec fn view(&self) -> OutcomeModel {
        match *self {
            NetOutcome::Pending => OutcomeModel::Pending,
            NetOutcome::Established { handshake, set_input_delay } => OutcomeModel::Established {
                their_name: handshake.my_name@,
                set_input_delay,
            },
            NetOutcome::Aborted(error) => OutcomeModel::Aborted(error),
        }
    }
}

impl View for NetAction {
    type V = ActionModel;

    open spec fn view(&self) -> ActionModel {
        ActionModel { send: self.send@, outcome: self.outcome@ }
    }
}

/// The step that gives setup up: nothing is sent.
pub open spec fn abort(state: NetModel, error: ProtocolError) -> (NetModel, ActionModel) {
    (
        NetModel { phase: PhaseModel::Failed, ..state },
        ActionModel { send: Seq::empty(), outcome: OutcomeModel::Aborted(error) },
    )
}

/// The step that leaves setup pending in `phase` and sends `send`.
pub open spec fn go_on(state: NetModel, phase: PhaseModel, send: Seq<u8>) -> (
    NetModel,
    ActionModel,
) {
    (NetModel { phase, ..state }, ActionModel { send, outcome: OutcomeModel::Pending })
}

/// The error of setup that stands for an error of calibration.
pub open spec fn timing_error(error: TimingError) -> ProtocolError {
    match error {
        TimingError::WrongSequenceNumber => ProtocolError::WrongSequenceNumber,
        TimingError::NotProbing => ProtocolError::NotExpected,
    }
}

/// How setup opens: the own handshake is sent, unless the name is too long
/// for a payload.
pub open spec fn net_start(is_host: bool, my_name: Seq<char>) -> (NetModel, ActionModel) {
    if encode_utf8(my_name).len() <= u32::MAX {
        (
            NetModel { is_host, my_name, phase: PhaseModel::AwaitingHandshake },
            ActionModel { send: frame(text_payload(my_name)), outcome: OutcomeModel::Pending },
        )
    } else {
        (
            NetModel { is_host, my_name, phase: PhaseModel::Failed },
            ActionModel {
                send: Seq::empty(),
                outcome: OutcomeModel::Aborted(ProtocolError::NameTooLong),
            },
        )
    }
}

/// The transition of setup: the state and the action that follow when a
/// frame with `payload` arrives, `elapsed_micros` after the last bytes were
/// written.
///
/// - Awaiting the handshake: the payload must hold a handshake with a name
///   other than the own. The initiator then sends the first probe; the
///   responder waits.
/// - Probing: the payload must hold the echo of the probe in flight. The
///   initiator sends the next probe or, after the last round trip, the
///   closing packet and the input delay, and setup is established.
/// - Echoing: the payload must hold a timing packet. The responder echoes
///   each probe; the closing packet ends its part and is not answered.
/// - Awaiting the delay: the payload must hold the input delay, and setup is
///   established.
/// - Once setup is established or given up, no frame is expected.
pub open spec fn net_next(state: NetModel, payload: Seq<u8>, elapsed_micros: u128) -> (
    NetModel,
    ActionModel,
) {
    match state.phase {
        PhaseModel::AwaitingHandshake => match Handshake::parse(payload) {
            None => abort(state, ProtocolError::Malformed),
            Some(their_name) => if their_name == state.my_name {
                abort(state, ProtocolError::SameName)
            } else if state.is_host {
                go_on(
                    state,
                    PhaseModel::Probing { their_name, host: HostTiming::initial() },
                    frame((TimingPacket { sequence_number: 1 }).payload()),
                )
            } else {
                go_on(
                    state,
                    PhaseModel::Echoing { their_name, client: ClientTiming::initial() },
                    Seq::empty(),
                )
            },
        },
        PhaseModel::Probing { their_name, host } => match TimingPacket::parse(payload) {
            None => abort(state, ProtocolError::Malformed),
            Some(echo) => {
                let step = host_next(host, echo, elapsed_micros);
                match step.1 {
                    HostAction::Probe(probe) => go_on(
                        state,
                        PhaseModel::Probing { their_name, host: step.0 },
                        frame(probe.payload()),
                    ),
                    HostAction::Finish { last, delay } => (
                        NetModel { phase: PhaseModel::Established, ..state },
                        ActionModel {
                            send: frame(last.payload()) + frame(delay.payload()),
                            outcome: OutcomeModel::Established {
                                their_name,
                                set_input_delay: delay,
                            },
                        },
                    ),
                    HostAction::Abort(error) => abort(state, timing_error(error)),
                }
            },
        },
        PhaseModel::Echoing { their_name, client } => match TimingPacket::parse(payload) {
            None => abort(state, ProtocolError::Malformed),
            Some(packet) => {
                let step = client_next(client, packet);
                let phase = if step.0.done() {
                    PhaseModel::AwaitingDelay { their_name }
                } else {
                    PhaseModel::Echoing { their_name, client: step.0 }
                };
                match step.1 {
                    Some(echo) => go_on(state, phase, frame(echo.payload())),
                    None => go_on(state, phase, Seq::empty()),
                }
            },
        },
        PhaseModel::AwaitingDelay { their_name } => match SetInputDelay::parse(payload) {
            None => abort(state, ProtocolError::Malformed),
            Some(set_input_delay) => (
                NetModel { phase: PhaseModel::Established, ..state },
                ActionModel {
                    send: Seq::empty(),
                    outcome: OutcomeModel::Established { their_name, set_input_delay },
                },
            ),
        },
        PhaseModel::Established => (
            state,
            ActionModel {
                send: Seq::empty(),
                outcome: OutcomeModel::Aborted(ProtocolError::NotExpected),
            },
        ),
        PhaseModel::Failed => (
            state,
            ActionModel {
                send: Seq::empty(),
                outcome: OutcomeModel::Aborted(ProtocolError::NotExpected),
            },
        ),
    }
}

fn aborted(is_host: bool, my_name: String, error: ProtocolError) -> (r: (NetState, NetAction))
    ensures
        r.0@ == (NetModel { is_host, my_name: my_name@, phase: PhaseModel::Failed }),
        r.1@ == (ActionModel { send: Seq::empty(), outcome: OutcomeModel::Aborted(error) }),
{
    (
        NetState { is_host, my_name, phase: Phase::Failed },
        NetAction { send: Vec::new(), outcome: NetOutcome::Aborted(error) },
    )
}

fn pending(is_host: bool, my_name: String, phase: Phase, send: Vec<u8>) -> (r: (
    NetState,
    NetAction,
))
    ensures
        r.0@ == (NetModel { is_host, my_name: my_name@, phase: phase@ }),
        r.1@ == (ActionModel { send: send@, outcome: OutcomeModel::Pending }),
{
    (NetState { is_host, my_name, phase }, NetAction { send, outcome: NetOutcome::Pending })
}

fn framed(payload: Vec<u8>) -> (out: Vec<u8>)
    ensures
        out@ == frame(payload@),
{
    let mut out = Vec::new();
    serialize_item(&mut out, payload.as_slice());
    assert(out@ =~= frame(payload@));
    out
}

impl NetState {
    /// Opens setup for a peer: the state to keep and the first action, which
    /// sends the peer's handshake. `is_host` says whether this peer listened
    /// for the connection and so initiates calibration.
    pub fn new(is_host: bool, my_name: String) -> (r: (NetState, NetAction))
        ensures
            (r.0@, r.1@) == net_start(is_host, my_name@),
    {
        let handshake = Handshake { my_name };
        match handshake.encode() {
            Some(payload) => pending(
                is_host,
                handshake.my_name,
                Phase::AwaitingHandshake,
                framed(payload),
            ),
            None => aborted(is_host, handshake.my_name, ProtocolError::NameTooLong),
        }
    }
}

/// Takes setup one step: a frame with `payload` arrived, `elapsed_micros`
/// after the last bytes were written.
pub fn net_thread(state: NetState, payload: &[u8], elapsed_micros: u128) -> (r: (
    NetState,
    NetAction,
))
    ensures
        (r.0@, r.1@) == net_next(state@, payload@, elapsed_micros),
{
    let NetState { is_host, my_name, phase } = state;
    match phase {
        Phase::AwaitingHandshake => match Handshake::decode(payload) {
            Err(_) => aborted(is_host, my_name, ProtocolError::Malformed),
            Ok(theirs) => {
                if theirs.my_name == my_name {
                    aborted(is_host, my_name, ProtocolError::SameName)
                } else if is_host {
                    let (host, probe) = HostTiming::start();
                    pending(
                        is_host,
                        my_name,
                        Phase::Probing { their_name: theirs.my_name, host },
                        framed(probe.encode()),
                    )
                } else {
                    pending(
                        is_host,
                        my_name,
                        Phase::Echoing {
                            their_name: theirs.my_name,
                            client: ClientTiming::start(),
                        },
                        Vec::new(),
                    )
                }
            },
        },
        Phase::Probing { their_name, host } => match TimingPacket::decode(payload) {
            Err(_) => aborted(is_host, my_name, ProtocolError::Malformed),
            Ok(echo) => {
                let mut host = host;
                match host_measure_timing(&mut host, echo, elapsed_micros) {
                    HostAction::Probe(probe) => pending(
                        is_host,
                        my_name,
                        Phase::Probing { their_name, host },
                        framed(probe.encode()),
                    ),
                    HostAction::Finish { last, delay } => {
                        let mut send = framed(last.encode());
                        serialize_item(&mut send, delay.encode().as_slice());
                        (
                            NetState { is_host, my_name, phase: Phase::Established },
                            NetAction {
                                send,
                                outcome: NetOutcome::Established {
                                    handshake: Handshake { my_name: their_name },
                                    set_input_delay: delay,
                                },
                            },
                        )
                    },
                    HostAction::Abort(error) => {
                        let error = match error {
                            TimingError::WrongSequenceNumber => ProtocolError::WrongSequenceNumber,
                            TimingError::NotProbing => ProtocolError::NotExpected,
                        };
                        aborted(is_host, my_name, error)
                    },
                }
            },
        },
        Phase::Echoing { their_name, client } => match TimingPacket::decode(payload) {
            Err(_) => aborted(is_host, my_name, ProtocolError::Malformed),
            Ok(packet) => {
                let mut client = client;
                let echo = client_measure_timing(&mut client, packet);
                let phase = if client.is_done() {
                    Phase::AwaitingDelay { their_name }
                } else {
                    Phase::Echoing { their_name, client }
                };
                match echo {
                    Some(echo) => pending(is_host, my_name, phase, framed(echo.encode())),
                    None => pending(is_host, my_name, phase, Vec::new()),
                }
            },
        },
        Phase::AwaitingDelay { their_name } => match SetInputDelay::decode(payload) {
            Err(_) => aborted(is_host, my_name, ProtocolError::Malformed),
            Ok(set_input_delay) => (
                NetState { is_host, my_name, phase: Phase::Established },
                NetAction {
                    send: Vec::new(),
                    outcome: NetOutcome::Established {
                        handshake: Handshake { my_name: their_name },
                        set_input_delay,
                    },
                },
            ),
        },
        Phase::Established => (
            NetState { is_host, my_name, phase: Phase::Established },
            NetAction {
                send: Vec::new(),
                outcome: NetOutcome::Aborted(ProtocolError::NotExpected),
            },
        ),
        Phase::Failed => (
            NetState { is_host, my_name, phase: Phase::Failed },
            NetAction {
                send: Vec::new(),
                outcome: NetOutcome::Aborted(ProtocolError::NotExpected),
            },
        ),
    }
}

} // verus!
