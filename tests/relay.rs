use zone_relay::frame::{encode_frame, split_frame};
use zone_relay::packet::{DecodeError, PlayerPacket};
use zone_relay::registry::{PeerAddr, Registry};
use zone_relay::session::{snapshot_frame, Action, CloseReason, Event, Phase, Session};

fn addr(port: u16) -> PeerAddr {
    PeerAddr { ip: 0x7f00_0001, port }
}

fn update(name: &str) -> PlayerPacket {
    PlayerPacket {
        name: name.to_string(),
        id: 5,
        x: 1.5f32.to_bits(),
        y: 2.5f32.to_bits(),
        message: String::new(),
        dir: false,
        actions: vec![],
    }
}

/// Simulates one fan-out: sends `frame` to every target, with `fails` naming the peers
/// whose write fails, and returns what each peer received.
fn broadcast(
    reg: &mut Registry<Vec<Vec<u8>>>,
    sender: PeerAddr,
    frame: &[u8],
    fails: &[PeerAddr],
) -> Vec<(PeerAddr, usize)> {
    let targets = reg.relay_targets(sender);
    let mut failed = Vec::new();
    let mut delivered = Vec::new();
    for &i in &targets {
        let peer = reg.peer_at(i);
        if fails.contains(&peer) {
            failed.push(peer);
        } else {
            delivered.push((peer, frame.len()));
        }
    }
    reg.drop_peers(&failed);
    delivered
}

#[test]
fn fan_out_skips_sender_and_reaches_others_once() {
    let (a, b, c) = (addr(1), addr(2), addr(3));
    let mut reg: Registry<Vec<Vec<u8>>> = Registry::new();
    reg.add(a, vec![]);
    reg.add(b, vec![]);
    reg.add(c, vec![]);
    let targets = reg.relay_targets(a);
    let peers: Vec<PeerAddr> = targets.iter().map(|&i| reg.peer_at(i)).collect();
    assert_eq!(peers, vec![b, c]);
    assert_eq!(reg.relay_targets(b).iter().map(|&i| reg.peer_at(i)).collect::<Vec<_>>(), vec![a, c]);
}

#[test]
fn failed_write_drops_only_that_peer() {
    let (a, b, c) = (addr(1), addr(2), addr(3));
    let mut reg: Registry<Vec<Vec<u8>>> = Registry::new();
    reg.add(a, vec![]);
    reg.add(b, vec![]);
    reg.add(c, vec![]);
    let got = broadcast(&mut reg, a, &[0, 0, 0, 1, 9], &[b]);
    assert_eq!(got, vec![(c, 5)]);
    assert!(!reg.contains(b));
    assert!(reg.contains(a));
    assert!(reg.contains(c));
    let next = reg.relay_targets(a);
    assert_eq!(next.iter().map(|&i| reg.peer_at(i)).collect::<Vec<_>>(), vec![c]);
}

#[test]
fn adding_same_address_replaces_connection() {
    let a = addr(1);
    let mut reg: Registry<u32> = Registry::new();
    assert_eq!(reg.add(a, 1), None);
    assert_eq!(reg.add(addr(2), 2), None);
    assert_eq!(reg.add(a, 3), Some(1));
    assert_eq!(reg.len(), 2);
    assert_eq!(reg.position(a), Some(0));
    assert_eq!(*reg.conn_at(0), 3);
}

#[test]
fn remove_reports_presence_and_keeps_order() {
    let mut reg: Registry<u8> = Registry::new();
    for p in 1..=4 {
        reg.add(addr(p), p as u8);
    }
    assert!(reg.remove(addr(2)));
    assert!(!reg.remove(addr(2)));
    let order: Vec<PeerAddr> = (0..reg.len()).map(|i| reg.peer_at(i)).collect();
    assert_eq!(order, vec![addr(1), addr(3), addr(4)]);
    assert_eq!(*reg.conn_at(1), 3);
}

#[test]
fn empty_registry_has_no_targets() {
    let reg: Registry<()> = Registry::new();
    assert!(reg.relay_targets(addr(1)).is_empty());
    assert_eq!(reg.len(), 0);
    assert_eq!(reg.position(addr(1)), None);
}

#[test]
fn bootstrap_then_relay() {
    let mut s = Session::new(addr(1));
    assert_eq!(s.phase, Phase::Bootstrapping);
    assert!(matches!(s.handle(Event::SnapshotSent), Action::Join));
    assert_eq!(s.phase, Phase::Relaying);
    let payload = update("x").encode();
    match s.handle(Event::FrameReceived(payload.clone())) {
        Action::Relay { packet, frame } => {
            assert_eq!(packet.name, "x");
            assert_eq!(frame, encode_frame(&payload));
        }
        other => panic!("unexpected {:?}", other),
    }
    assert_eq!(s.phase, Phase::Relaying);
}

#[test]
fn bootstrap_failure_closes() {
    let mut s = Session::new(addr(1));
    assert!(matches!(s.handle(Event::BootstrapFailed), Action::Close(CloseReason::Bootstrap)));
    assert_eq!(s.phase, Phase::Closed);
}

#[test]
fn malformed_frame_ends_worker_and_leaves_others() {
    let (a, b, c) = (addr(1), addr(2), addr(3));
    let mut reg: Registry<()> = Registry::new();
    reg.add(a, ());
    reg.add(b, ());
    reg.add(c, ());
    let mut s = Session::new(b);
    s.handle(Event::SnapshotSent);
    match s.handle(Event::FrameReceived(vec![1, 0, 0])) {
        Action::Close(CloseReason::Protocol(e)) => {
            assert_eq!(e.reason, DecodeError::Truncated);
            assert_eq!(e.raw, vec![1, 0, 0]);
        }
        other => panic!("unexpected {:?}", other),
    }
    assert_eq!(s.phase, Phase::Closed);
    reg.remove(s.peer);
    let left: Vec<PeerAddr> = (0..reg.len()).map(|i| reg.peer_at(i)).collect();
    assert_eq!(left, vec![a, c]);
}

#[test]
fn stream_ending_inside_a_frame_closes() {
    let mut s = Session::new(addr(1));
    s.handle(Event::SnapshotSent);
    assert!(matches!(s.handle(Event::ReadFailed), Action::Close(CloseReason::Stream)));
    assert_eq!(s.phase, Phase::Closed);
    assert!(matches!(s.handle(Event::SnapshotSent), Action::Close(CloseReason::Unexpected)));
}

#[test]
fn frame_before_bootstrap_is_unexpected() {
    let mut s = Session::new(addr(1));
    let payload = update("y").encode();
    assert!(matches!(s.handle(Event::FrameReceived(payload)), Action::Close(CloseReason::Unexpected)));
    assert_eq!(s.phase, Phase::Closed);
}

#[test]
fn snapshot_of_nine_bytes_and_relayed_twelve_byte_payload() {
    let snapshot: Vec<u8> = vec![2, 2, 0, 1, 0, 1, 1, 0, 0];
    let f = snapshot_frame(&snapshot).unwrap();
    assert_eq!(&f[..4], &[0, 0, 0, 9]);
    assert_eq!(&f[4..], &snapshot[..]);
    // A 12-byte payload relayed on: the peer reads the prefix 0x0000000C, then the same bytes.
    let payload: Vec<u8> = (100u8..112).collect();
    let out = encode_frame(&payload);
    assert_eq!(&out[..4], &[0, 0, 0, 0x0c]);
    assert_eq!(split_frame(&out), Some((payload.clone(), 16)));
    // The second, connected client is a target; a client that never connected is not.
    let (first, second, never) = (addr(1), addr(2), addr(3));
    let mut reg: Registry<()> = Registry::new();
    reg.add(second, ());
    reg.add(first, ());
    let targets: Vec<PeerAddr> = reg.relay_targets(first).iter().map(|&i| reg.peer_at(i)).collect();
    assert_eq!(targets, vec![second]);
    assert!(!targets.contains(&never));
}

#[test]
fn disconnected_peer_receives_no_later_broadcast() {
    let (a, b, c) = (addr(1), addr(2), addr(3));
    let mut reg: Registry<Vec<Vec<u8>>> = Registry::new();
    reg.add(a, vec![]);
    reg.add(b, vec![]);
    reg.add(c, vec![]);
    // a sends an update, then its stream ends mid-read
    let mut s = Session::new(a);
    s.handle(Event::SnapshotSent);
    let first = s.handle(Event::FrameReceived(update("a").encode()));
    assert!(matches!(first, Action::Relay { .. }));
    assert!(matches!(s.handle(Event::ReadFailed), Action::Close(CloseReason::Stream)));
    assert!(reg.remove(a));
    // a later broadcast from c reaches b only, and nobody fails
    let got = broadcast(&mut reg, c, &[0, 0, 0, 0], &[]);
    assert_eq!(got, vec![(b, 4)]);
    assert_eq!(reg.len(), 2);
}

#[test]
fn oversized_snapshot_is_not_framed_but_normal_one_is() {
    assert!(snapshot_frame(&[]).is_some());
    assert_eq!(snapshot_frame(&[]).unwrap(), vec![0, 0, 0, 0]);
}
