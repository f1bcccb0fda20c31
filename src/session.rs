//! The life of one connection: it is sent the world snapshot, joins the registry, then has
//! each of its messages relayed until its stream fails or carries an undecodable payload.
use vstd::prelude::*;

use crate::frame::{encode_frame, frame_of};
use crate::packet::{parse_packet, PlayerPacket, ProtocolError};
use crate::registry::{lemma_failure_isolated, without, PeerAddr};

verus! {

/// Where a connection stands.
#[derive(Clone, Copy, Debug, PartialEq, Eq, Structural)]
pub enum Phase {
    /// The snapshot is being sent.
    Bootstrapping,
    /// Messages are read and relayed.
    Relaying,
    /// The connection is gone; nothing more is done for it.
    Closed,
}

/// What happened on the connection.
#[derive(Clone, Debug)]
pub enum Event {
    /// The snapshot frame was written.
    SnapshotSent,
    /// Writing the snapshot failed.
    BootstrapFailed,
    /// A whole frame was read; this is its payload.
    FrameReceived(Vec<u8>),
    /// Reading the next frame failed: an I/O error, or the stream ended inside a frame.
    ReadFailed,
}

/// Why a connection is closed.
#[derive(Clone, Debug)]
pub enum CloseReason {
    /// The snapshot could not be sent.
    Bootstrap,
    /// The stream broke or ended.
    Stream,
    /// A payload did not decode; the connection is out of step with this server.
    Protocol(ProtocolError),
    /// An event arrived that the current phase does not await.
    Unexpected,
}

/// What the worker has to do next.
#[derive(Clone, Debug)]
pub enum Action {
    /// Add this connection to the registry, then read its first frame.
    Join,
    /// Send `frame` to every other member of the registry, then read the next frame.
    Relay { packet: PlayerPacket, frame: Vec<u8> },
    /// Take this connection out of the registry and end the worker.
    Close(CloseReason),
}

/// One connection's state.
pub struct Session {
    pub peer: PeerAddr,
    pub phase: Phase,
}

/// The phase that `event` leads to from `phase`.
pub open spec fn next_phase(phase: Phase, event: Event) -> Phase {
    match (phase, event) {
        (Phase::Bootstrapping, Event::SnapshotSent) => Phase::Relaying,
        (Phase::Relaying, Event::FrameReceived(p)) => if parse_packet(p@) is Ok {
            Phase::Relaying
        } else {
            Phase::Closed
        },
        _ => Phase::Closed,
    }
}

/// Whether `a` is what is to be done when `event` arrives in `phase`.
pub open spec fn is_action_for(phase: Phase, event: Event, a: Action) -> bool {
    match (phase, event) {
        (Phase::Bootstrapping, Event::SnapshotSent) => a is Join,
        (Phase::Bootstrapping, Event::BootstrapFailed) => a matches Action::Close(CloseReason::Bootstrap),
        (Phase::Relaying, Event::FrameReceived(p)) => match parse_packet(p@) {
            Ok(v) => match a {
                Action::Relay { packet, frame } => packet@ == v && frame@ == frame_of(p@),
                _ => false,
            },
            Err(reason) => match a {
                Action::Close(CloseReason::Protocol(e)) => e.reason == reason && e.raw@ == p@,
                _ => false,
            },
        },
        (Phase::Relaying, Event::ReadFailed) => a matches Action::Close(CloseReason::Stream),
        _ => a matches Action::Close(CloseReason::Unexpected),
    }
}

/// The snapshot frame sent first on every connection; `None` when the snapshot is too
/// long for a frame's length prefix.
pub fn snapshot_frame(snapshot: &[u8]) -> (r: Option<Vec<u8>>)
    ensures
        r is Some <==> snapshot@.len() <= u32::MAX,
        r matches Some(f) ==> f@ == frame_of(snapshot@),
{
    if snapshot.len() as u64 > u32::MAX as u64 {
        None
    } else {
        Some(encode_frame(snapshot))
    }
}

impl Session {
    /// A connection from `peer`, about to be sent the snapshot.
    pub fn new(peer: PeerAddr) -> (r: Session)
        ensures
            r.peer == peer,
            r.phase == Phase::Bootstrapping,
    {
        Session { peer, phase: Phase::Bootstrapping }
    }

    /// Takes in `event` and says what to do about it.
    pub fn handle(&mut self, event: Event) -> (a: Action)
        requires
            event matches Event::FrameReceived(p) ==> p@.len() <= u32::MAX,
        ensures
            final(self).peer == old(self).peer,
            final(self).phase == next_phase(old(self).phase, event),
            is_action_for(old(self).phase, event, a),
    {
        let phase = self.phase;
        match (phase, event) {
            (Phase::Bootstrapping, Event::SnapshotSent) => {
                self.phase = Phase::Relaying;
                Action::Join
            },
            (Phase::Bootstrapping, Event::BootstrapFailed) => {
                self.phase = Phase::Closed;
                Action::Close(CloseReason::Bootstrap)
            },
            (Phase::Relaying, Event::FrameReceived(payload)) => {
                match PlayerPacket::decode(payload.as_slice()) {
                    Ok(packet) => {
                        let frame = encode_frame(payload.as_slice());
                        Action::Relay { packet, frame }
                    },
                    Err(e) => {
                        self.phase = Phase::Closed;
                        Action::Close(CloseReason::Protocol(e))
                    },
                }
            },
            (Phase::Relaying, Event::ReadFailed) => {
                self.phase = Phase::Closed;
                Action::Close(CloseReason::Stream)
            },
            _ => {
                self.phase = Phase::Closed;
                Action::Close(CloseReason::Unexpected)
            },
        }
    }
}

/// A payload that does not decode ends its connection's relay, and taking that connection's
/// peer out of the registry leaves every other member in place.
pub proof fn lemma_bad_frame_isolated(peers: Seq<PeerAddr>, own: PeerAddr, payload: Vec<u8>, q: PeerAddr)
    requires
        parse_packet(payload@) is Err,
        q != own,
    ensures
        next_phase(Phase::Relaying, Event::FrameReceived(payload)) == Phase::Closed,
        without(peers, seq![own]).contains(q) <==> peers.contains(q),
{
    lemma_failure_isolated(peers, seq![own], q);
    assert(!seq![own].contains(q)) by {
        if seq![own].contains(q) {
            let i = choose|i: int| 0 <= i < 1 && seq![own][i] == q;
        }
    }
}

} // verus!
