use potato_ring::ring::{assemble, next_index, prev_index, RingError, Wiring};
use potato_ring::state::Ring;
use potato_ring::worker::{Phase, WakeAction, Worker};

fn tokens(ring: &Ring) -> usize {
    let mut count = 0;
    for i in 0..ring.size() {
        if ring.token_on_link(i) {
            count += 1;
        }
        if ring.worker(i).holding {
            count += 1;
        }
    }
    count
}

#[test]
fn successor_and_predecessor_wrap() {
    assert_eq!(next_index(0, 4), 1);
    assert_eq!(next_index(3, 4), 0);
    assert_eq!(prev_index(0, 4), 3);
    assert_eq!(prev_index(2, 4), 1);
    assert_eq!(next_index(0, 1), 0);
    assert_eq!(prev_index(0, 1), 0);
}

#[test]
fn assemble_rejects_empty_ring() {
    assert_eq!(assemble(0), Err(RingError::NoWorkers));
    assert!(matches!(Ring::new(0), Err(RingError::NoWorkers)));
}

#[test]
fn assemble_wires_one_cycle() {
    let w = assemble(4).unwrap();
    assert_eq!(w.len(), 4);
    assert_eq!(w[0], Wiring { inbound: 3, outbound: 0, initiator: true });
    assert_eq!(w[1], Wiring { inbound: 0, outbound: 1, initiator: false });
    assert_eq!(w[2], Wiring { inbound: 1, outbound: 2, initiator: false });
    assert_eq!(w[3], Wiring { inbound: 2, outbound: 3, initiator: false });
    for i in 0..4 {
        assert_eq!(w[next_index(i, 4)].inbound, w[i].outbound);
    }
}

#[test]
fn assemble_single_worker_is_self_loop() {
    let w = assemble(1).unwrap();
    assert_eq!(w, vec![Wiring { inbound: 0, outbound: 0, initiator: true }]);
}

#[test]
fn worker_decisions() {
    let w = Worker::new(false);
    assert_eq!(w.phase, Phase::Idle);
    assert!(!w.holding);
    assert!(!w.injects());
    assert!(Worker::new(true).injects());
    assert_eq!(w.on_wake(false), WakeAction::Rest);
    assert_eq!(w.on_wake(true), WakeAction::Forward);
    let mut h = w;
    h.took();
    assert!(h.holding);
    assert_eq!(h.on_wake(true), WakeAction::Retry);
    h.sent(false);
    assert!(h.holding);
    h.sent(true);
    assert!(!h.holding);
}

#[test]
fn worker_shutdown_reports() {
    let mut w = Worker::new(false);
    assert!(!w.shutdown(false));
    assert_eq!(w.phase, Phase::Terminating);
    assert_eq!(w.on_wake(true), WakeAction::Rest);
    let mut p = Worker::new(false);
    assert!(p.shutdown(true));
    let mut h = Worker::new(false);
    h.took();
    assert!(h.shutdown(false));
    assert_eq!(h.phase, Phase::Terminating);
}

#[test]
fn four_players_pass_the_token_once_each() {
    let mut ring = Ring::new(4).unwrap();
    assert_eq!(ring.size(), 4);
    assert_eq!(tokens(&ring), 0);
    assert!(ring.start());
    assert!(ring.token_on_link(0));
    for i in 1..4 {
        assert_eq!(ring.wake(i), WakeAction::Forward);
        assert!(ring.token_on_link(i));
        assert!(!ring.token_on_link(i - 1));
        assert_eq!(tokens(&ring), 1);
    }
    assert_eq!(ring.wake(0), WakeAction::Forward);
    assert!(ring.token_on_link(0));
    assert_eq!(tokens(&ring), 1);
    let lost = ring.shutdown();
    assert_eq!(lost, vec![false, true, false, false]);
    for i in 0..4 {
        assert_eq!(ring.worker(i).phase, Phase::Terminating);
    }
    assert_eq!(tokens(&ring), 1);
}

#[test]
fn injection_happens_once() {
    let mut ring = Ring::new(3).unwrap();
    assert!(ring.start());
    assert!(!ring.start());
    assert_eq!(ring.wake(1), WakeAction::Forward);
    assert!(!ring.start());
    assert_eq!(tokens(&ring), 1);
}

#[test]
fn self_loop_forwards_to_itself() {
    let mut ring = Ring::new(1).unwrap();
    assert!(ring.start());
    for _ in 0..5 {
        assert_eq!(ring.wake(0), WakeAction::Forward);
        assert!(ring.token_on_link(0));
        assert!(!ring.worker(0).holding);
    }
    assert_eq!(ring.stop(0), true);
}

#[test]
fn timer_tick_changes_nothing() {
    let mut ring = Ring::new(4).unwrap();
    assert!(ring.start());
    for i in [2, 3, 0] {
        assert_eq!(ring.wake(i), WakeAction::Rest);
        assert!(ring.token_on_link(0));
        assert!(!ring.worker(i).holding);
        assert_eq!(ring.worker(i).phase, Phase::Idle);
    }
    assert_eq!(tokens(&ring), 1);
}

#[test]
fn stopped_worker_lets_token_wait() {
    let mut ring = Ring::new(2).unwrap();
    assert!(ring.start());
    assert!(ring.stop(1));
    assert_eq!(ring.worker(1).phase, Phase::Terminating);
    assert_eq!(ring.wake(1), WakeAction::Rest);
    assert!(ring.token_on_link(0));
    assert!(!ring.stop(0));
    assert_eq!(tokens(&ring), 1);
}

#[test]
fn any_interleaving_keeps_one_token() {
    let n = 5;
    let mut ring = Ring::new(n).unwrap();
    let mut seed: u64 = 12345;
    for step in 0..400 {
        seed = seed.wrapping_mul(6364136223846793005).wrapping_add(1442695040888963407);
        let i = ((seed >> 33) as usize) % n;
        if step == 7 {
            ring.start();
        }
        if step == 300 {
            ring.stop(i);
        }
        ring.wake(i);
        assert!(tokens(&ring) <= 1);
    }
    assert_eq!(tokens(&ring), 1);
}
