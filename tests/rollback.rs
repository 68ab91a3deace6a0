use rollback_core::game::Game;
use rollback_core::input::{
    decode_input, encode_input, input_from_keys, movement_delta, PlayerInputFrame, DOWN, LEFT,
    RIGHT, UP,
};
use rollback_core::protocol::{decode_message, encode_message, MESSAGE_LEN};
use rollback_core::queue::{InputQueue, QueueError};
use rollback_core::session::{
    ConnectionRef, Event, InputError, PlayerHandle, PlayerKind, SchedulerState, Session,
    SessionBuilder, SessionConfig, StartError,
};
use rollback_core::snapshot::{SnapshotError, SnapshotStore};
use rollback_core::world::{
    initial_state, move_player, player_kinds, BackrollConfig, GameState, Position, FIELD_LIMIT,
};

fn input(bits: u32) -> PlayerInputFrame {
    PlayerInputFrame::from_bits_truncate(bits)
}

fn connected(peer: u64) -> PlayerKind {
    PlayerKind::Remote(ConnectionRef { peer, established: true })
}

fn config(window: u64, capacity: usize) -> SessionConfig {
    SessionConfig { max_prediction_window: window, snapshot_capacity: capacity, desync_tolerance: 1 }
}

/// A session seen from the machine of player `client` of two.
fn peer_session(client: usize, window: u64, capacity: usize) -> Session<BackrollConfig> {
    let (a, b) = player_kinds(client, ConnectionRef { peer: 7, established: true });
    let mut builder = SessionBuilder::new();
    builder.add_player(a);
    builder.add_player(b);
    match builder.start::<BackrollConfig>(config(window, capacity), initial_state()) {
        Ok(s) => s,
        Err(_) => panic!("session did not start"),
    }
}

#[test]
fn input_bits_and_flags() {
    let mut i = PlayerInputFrame::empty();
    assert_eq!(i.bits(), 0);
    i.insert(UP);
    i.insert(RIGHT);
    assert!(i.contains(UP));
    assert!(i.contains(RIGHT));
    assert!(!i.contains(LEFT));
    assert_eq!(i.bits(), 9);
    assert_eq!(input(0xFF).bits(), 15);
}

#[test]
fn input_codec_is_little_endian_and_round_trips() {
    let bytes = encode_input(input(UP | LEFT));
    assert_eq!(bytes, vec![5, 0, 0, 0]);
    let wide = PlayerInputFrame { bits: 0x0102_0304 };
    let bytes = encode_input(wide);
    assert_eq!(bytes, vec![4, 3, 2, 1]);
    assert_eq!(decode_input(&bytes, 0), Some(wide));
    assert_eq!(decode_input(&bytes, 1), None);
    assert_eq!(decode_input(&vec![0, 8, 0, 0, 0], 1), Some(input(RIGHT)));
}

#[test]
fn keys_map_to_inputs() {
    assert_eq!(input_from_keys(false, false, false, false).bits(), 0);
    assert_eq!(input_from_keys(true, true, false, false).bits(), LEFT);
    assert_eq!(input_from_keys(false, true, true, true).bits(), RIGHT | UP);
    assert_eq!(input_from_keys(false, false, false, true).bits(), DOWN);
}

#[test]
fn movement_follows_directions() {
    assert_eq!(movement_delta(input(UP | RIGHT)), (1, 1));
    assert_eq!(movement_delta(input(LEFT | DOWN)), (-1, -1));
    assert_eq!(movement_delta(input(LEFT | RIGHT)), (0, 0));
    let p = move_player(Position { x: 3, y: -4 }, input(LEFT | UP));
    assert_eq!(p, Position { x: 1, y: -2 });
    let edge = move_player(Position { x: FIELD_LIMIT, y: 0 }, input(RIGHT));
    assert_eq!(edge, Position { x: FIELD_LIMIT, y: 0 });
}

#[test]
fn game_advances_both_players() {
    let s = initial_state();
    let next = BackrollConfig::advance(&s, &vec![input(UP), input(LEFT)]);
    assert_eq!(next.first, Position { x: 0, y: 2 });
    assert_eq!(next.second, Position { x: -2, y: 0 });
    let only_one = BackrollConfig::advance(&s, &vec![input(DOWN)]);
    assert_eq!(only_one.second, Position { x: 0, y: 0 });
    assert_eq!(only_one.first, Position { x: 0, y: -2 });
}

#[test]
fn prediction_falls_back_to_neutral_then_repeats_last() {
    let mut q = InputQueue::new();
    assert_eq!(q.predict(0).bits(), 0);
    assert_eq!(q.predict(50).bits(), 0);
    assert_eq!(q.last_confirmed(), None);
    assert_eq!(q.push_confirmed(0, input(UP)), Ok(()));
    assert_eq!(q.push_confirmed(1, input(LEFT)), Ok(()));
    assert_eq!(q.last_confirmed(), Some(1));
    assert_eq!(q.predict(2).bits(), LEFT);
    assert_eq!(q.predict(40).bits(), LEFT);
    assert_eq!(q.get(0), (input(UP), false));
    assert_eq!(q.get(5), (input(LEFT), true));
}

#[test]
fn late_and_early_inputs_are_refused() {
    let mut q = InputQueue::new();
    assert_eq!(q.push_confirmed(1, input(UP)), Err(QueueError::FrameGap));
    assert_eq!(q.push_confirmed(0, input(UP)), Ok(()));
    assert_eq!(q.push_confirmed(0, input(DOWN)), Err(QueueError::OutOfOrderInput));
    assert_eq!(q.confirmed_len(), 1);
    assert_eq!(q.get(0).0.bits(), UP);
}

#[test]
fn snapshots_load_exact_frames() {
    let mut store: SnapshotStore<u32> = SnapshotStore::new(3);
    assert_eq!(store.load(0), Err(SnapshotError::SnapshotNotFound));
    assert_eq!(store.latest_frame(), None);
    assert_eq!(store.save(0, 100), Ok(()));
    assert_eq!(store.save(1, 101), Ok(()));
    assert_eq!(store.load(1), Ok(&101));
    assert_eq!(store.load(2), Err(SnapshotError::SnapshotNotFound));
    assert_eq!(store.save(1, 111), Ok(()));
    assert_eq!(store.load(1), Ok(&111));
    assert_eq!(store.latest_frame(), Some(1));
}

#[test]
fn snapshots_outside_the_horizon_are_gone() {
    let mut store: SnapshotStore<u32> = SnapshotStore::new(3);
    let mut f: u64 = 0;
    while f <= 10 {
        assert_eq!(store.save(f, f as u32 * 10), Ok(()));
        f += 1;
    }
    assert_eq!(store.latest_frame(), Some(10));
    assert_eq!(store.load(10), Ok(&100));
    assert_eq!(store.load(8), Ok(&80));
    assert_eq!(store.load(7), Err(SnapshotError::SnapshotNotFound));
    assert_eq!(store.load(0), Err(SnapshotError::SnapshotNotFound));
    assert_eq!(store.save(7, 1), Err(SnapshotError::OutsideHorizon));
    // A frame skipped past stays out of reach even where its slot is stale.
    assert_eq!(store.save(14, 140), Ok(()));
    assert_eq!(store.load(9), Err(SnapshotError::SnapshotNotFound));
    assert_eq!(store.load(10), Err(SnapshotError::SnapshotNotFound));
    assert_eq!(store.load(14), Ok(&140));
}

#[test]
fn start_checks_players_and_configuration() {
    let mut b = SessionBuilder::new();
    let h = b.add_player(PlayerKind::Local);
    assert_eq!(h, PlayerHandle { id: 0 });
    b.add_player(PlayerKind::Spectator);
    assert!(matches!(
        b.start::<BackrollConfig>(config(4, 8), initial_state()),
        Err(StartError::NotEnoughPlayers)
    ));

    let mut b = SessionBuilder::new();
    b.add_player(PlayerKind::Local);
    b.add_player(PlayerKind::Remote(ConnectionRef { peer: 1, established: false }));
    assert!(matches!(
        b.start::<BackrollConfig>(config(4, 8), initial_state()),
        Err(StartError::ConnectionNotEstablished)
    ));

    let mut b = SessionBuilder::new();
    b.add_player(PlayerKind::Local);
    b.add_player(connected(1));
    assert!(matches!(
        b.start::<BackrollConfig>(config(4, 4), initial_state()),
        Err(StartError::SnapshotRingTooSmall)
    ));

    let mut b = SessionBuilder::new();
    b.add_player(PlayerKind::Local);
    b.add_player(connected(1));
    let s = b.start::<BackrollConfig>(config(4, 5), initial_state());
    let s = match s {
        Ok(s) => s,
        Err(_) => panic!("session did not start"),
    };
    assert_eq!(s.current_frame(), 0);
    assert_eq!(s.state(), SchedulerState::Running);
    assert_eq!(*s.current_game_state(), initial_state());
}

#[test]
fn inputs_go_to_the_right_players() {
    let mut s = peer_session(0, 4, 8);
    assert_eq!(s.add_local_input(PlayerHandle { id: 5 }, input(UP)), Err(InputError::UnknownPlayer));
    assert_eq!(s.add_local_input(PlayerHandle { id: 1 }, input(UP)), Err(InputError::WrongPlayerKind));
    assert_eq!(s.add_remote_input(PlayerHandle { id: 0 }, 0, input(UP)), Err(InputError::WrongPlayerKind));
    assert_eq!(s.add_remote_input(PlayerHandle { id: 1 }, 2, input(UP)), Err(InputError::FrameGap));
    assert_eq!(s.add_local_input(PlayerHandle { id: 0 }, input(UP)), Ok(()));
    assert_eq!(s.add_local_input(PlayerHandle { id: 0 }, input(UP)), Err(InputError::OutOfOrderInput));
    assert_eq!(s.add_remote_input(PlayerHandle { id: 1 }, 0, input(LEFT)), Ok(()));
    assert_eq!(s.add_remote_input(PlayerHandle { id: 1 }, 0, input(LEFT)), Err(InputError::OutOfOrderInput));
    assert_eq!(s.current_inputs(PlayerHandle { id: 0 }), Some(input(UP)));
    assert_eq!(s.current_inputs(PlayerHandle { id: 1 }), Some(input(LEFT)));
    assert_eq!(s.current_inputs(PlayerHandle { id: 2 }), None);
    let events = s.advance_frame();
    assert_eq!(events, vec![Event::FrameAdvanced { frame: 0 }]);
    assert_eq!(s.current_game_state().first, Position { x: 0, y: 2 });
    assert_eq!(s.current_game_state().second, Position { x: -2, y: 0 });
    // Nothing is known yet for frame 1: both inputs are predicted.
    assert_eq!(s.current_inputs(PlayerHandle { id: 1 }), Some(input(LEFT)));
}

#[test]
fn stall_when_remote_confirmations_lag() {
    let window: u64 = 3;
    let mut s = peer_session(0, window, 8);
    let local = PlayerHandle { id: 0 };
    let remote = PlayerHandle { id: 1 };
    assert_eq!(s.add_remote_input(remote, 0, input(0)), Ok(()));
    // The remote horizon stays at frame 0.
    let mut f: u64 = 0;
    while f < 1 + window {
        assert_eq!(s.add_local_input(local, input(0)), Ok(()));
        let events = s.advance_frame();
        assert_eq!(events, vec![Event::FrameAdvanced { frame: f }]);
        assert_eq!(s.state(), SchedulerState::Running);
        f += 1;
    }
    assert_eq!(s.current_frame(), window + 1);
    assert_eq!(s.add_local_input(local, input(0)), Ok(()));
    let events = s.advance_frame();
    assert!(events.is_empty());
    assert_eq!(s.state(), SchedulerState::Stalled);
    assert_eq!(s.current_frame(), window + 1);
    let events = s.advance_frame();
    assert!(events.is_empty());
    assert_eq!(s.current_frame(), window + 1);
    // Confirmation progresses: the session advances again.
    assert_eq!(s.add_remote_input(remote, 1, input(0)), Ok(()));
    let events = s.advance_frame();
    assert_eq!(events, vec![Event::FrameAdvanced { frame: window + 1 }]);
    assert_eq!(s.state(), SchedulerState::Running);
}

/// Runs two peers for `frames` ticks; peer 0's player presses `UP` at frame
/// `press` only, peer 1's player never presses anything, and every input
/// reaches the other peer `latency` ticks after it was given.
fn run_two_peers(frames: u64, press: u64, latency: u64) -> (Session<BackrollConfig>, Session<BackrollConfig>, Vec<Event>) {
    let mut a = peer_session(0, 4, 8);
    let mut b = peer_session(1, 4, 8);
    let mut b_events: Vec<Event> = Vec::new();
    let a_input = |f: u64| if f == press { input(UP) } else { input(0) };
    let mut t: u64 = 0;
    while t < frames {
        if t >= latency {
            let f = t - latency;
            assert_eq!(a.add_remote_input(PlayerHandle { id: 1 }, f, input(0)), Ok(()));
            assert_eq!(b.add_remote_input(PlayerHandle { id: 0 }, f, a_input(f)), Ok(()));
        }
        assert_eq!(a.add_local_input(PlayerHandle { id: 0 }, a_input(t)), Ok(()));
        assert_eq!(b.add_local_input(PlayerHandle { id: 1 }, input(0)), Ok(()));
        let ea = a.advance_frame();
        assert_eq!(ea.last(), Some(&Event::FrameAdvanced { frame: t }));
        let eb = b.advance_frame();
        assert_eq!(eb.last(), Some(&Event::FrameAdvanced { frame: t }));
        b_events.extend(eb);
        t += 1;
    }
    (a, b, b_events)
}

#[test]
fn late_input_is_rolled_back_and_peers_converge() {
    let (mut a, mut b, b_events) = run_two_peers(20, 10, 4);
    assert!(b_events.contains(&Event::RollbackOccurred { from_frame: 10, to_frame: 14 }));
    // Deliver what is still in flight, then run one more tick on each.
    let mut f: u64 = 16;
    while f < 20 {
        assert_eq!(a.add_remote_input(PlayerHandle { id: 1 }, f, input(0)), Ok(()));
        assert_eq!(b.add_remote_input(PlayerHandle { id: 0 }, f, input(0)), Ok(()));
        f += 1;
    }
    assert_eq!(a.add_local_input(PlayerHandle { id: 0 }, input(0)), Ok(()));
    assert_eq!(b.add_local_input(PlayerHandle { id: 1 }, input(0)), Ok(()));
    a.advance_frame();
    b.advance_frame();
    assert_eq!(a.current_frame(), 21);
    assert_eq!(b.current_frame(), 21);
    let expected = GameState { first: Position { x: 0, y: 2 }, second: Position { x: 0, y: 0 } };
    assert_eq!(*a.current_game_state(), expected);
    assert_eq!(*b.current_game_state(), expected);
}

#[test]
fn correction_matches_knowing_inputs_from_the_start() {
    // Latency 0: every input is known before its frame runs.
    let (a0, b0, events0) = run_two_peers(12, 3, 0);
    assert!(!events0.iter().any(|e| matches!(e, Event::RollbackOccurred { .. })));
    // Latency 2: peer 1 predicts, then corrects.
    let (_, mut b2, events2) = run_two_peers(12, 3, 2);
    assert!(events2.contains(&Event::RollbackOccurred { from_frame: 3, to_frame: 5 }));
    let mut f: u64 = 10;
    while f < 12 {
        assert_eq!(b2.add_remote_input(PlayerHandle { id: 0 }, f, input(0)), Ok(()));
        f += 1;
    }
    assert_eq!(b2.add_local_input(PlayerHandle { id: 1 }, input(0)), Ok(()));
    let mut b0 = b0;
    assert_eq!(b0.add_local_input(PlayerHandle { id: 1 }, input(0)), Ok(()));
    assert_eq!(b0.add_remote_input(PlayerHandle { id: 0 }, 12, input(0)), Ok(()));
    assert_eq!(b2.add_remote_input(PlayerHandle { id: 0 }, 12, input(0)), Ok(()));
    b0.advance_frame();
    b2.advance_frame();
    assert_eq!(*b2.current_game_state(), *b0.current_game_state());
    assert_eq!(*a0.current_game_state(), GameState { first: Position { x: 0, y: 2 }, second: Position { x: 0, y: 0 } });
}

#[test]
fn identical_inputs_give_identical_states() {
    let (a1, b1, _) = run_two_peers(9, 2, 1);
    let (a2, b2, _) = run_two_peers(9, 2, 1);
    assert_eq!(*a1.current_game_state(), *a2.current_game_state());
    assert_eq!(*b1.current_game_state(), *b2.current_game_state());
    let s = initial_state();
    let x = BackrollConfig::advance(&s, &vec![input(RIGHT), input(DOWN)]);
    let y = BackrollConfig::advance(&s, &vec![input(RIGHT), input(DOWN)]);
    assert_eq!(x, y);
}

#[test]
fn rollback_reaches_back_a_whole_window() {
    // Window 4 with the smallest ring allowed: 5 snapshots.
    let mut s = peer_session(0, 4, 5);
    let remote = PlayerHandle { id: 1 };
    let local = PlayerHandle { id: 0 };
    let mut t: u64 = 0;
    while t < 4 {
        assert_eq!(s.add_local_input(local, input(0)), Ok(()));
        s.advance_frame();
        t += 1;
    }
    assert_eq!(s.current_frame(), 4);
    // The remote's frame 0 input differs from the neutral prediction.
    assert_eq!(s.add_remote_input(remote, 0, input(UP)), Ok(()));
    let events = s.advance_frame();
    assert_eq!(events[0], Event::RollbackOccurred { from_frame: 0, to_frame: 4 });
    assert_eq!(s.current_game_state().second, Position { x: 0, y: 10 });
}

#[test]
fn player_kinds_follow_the_client_number() {
    let c = ConnectionRef { peer: 3, established: true };
    assert_eq!(player_kinds(0, c), (PlayerKind::Local, PlayerKind::Remote(c)));
    assert_eq!(player_kinds(1, c), (PlayerKind::Remote(c), PlayerKind::Local));
}

#[test]
fn input_messages_round_trip() {
    let m = encode_message(0x0102_0304_0506_0708, input(UP | RIGHT));
    assert_eq!(m.len(), MESSAGE_LEN);
    assert_eq!(m, vec![8, 7, 6, 5, 4, 3, 2, 1, 9, 0, 0, 0]);
    assert_eq!(decode_message(&m), Some((0x0102_0304_0506_0708, input(UP | RIGHT))));
    let m = encode_message(u64::MAX, input(0));
    assert_eq!(decode_message(&m), Some((u64::MAX, input(0))));
    assert_eq!(decode_message(&vec![0; 11]), None);
    assert_eq!(decode_message(&vec![0; 13]), None);
}

#[test]
fn checksum_mismatches_escalate_past_the_tolerance() {
    let mut s = peer_session(0, 4, 8);
    assert!(s.report_checksums(3, 42, 42).is_empty());
    assert_eq!(s.report_checksums(4, 1, 2), vec![Event::Desync { frame: 4 }]);
    assert_eq!(s.state(), SchedulerState::Running);
    // A match resets the count.
    assert!(s.report_checksums(5, 7, 7).is_empty());
    assert_eq!(s.report_checksums(6, 1, 2), vec![Event::Desync { frame: 6 }]);
    assert_eq!(
        s.report_checksums(7, 1, 2),
        vec![Event::Desync { frame: 7 }, Event::SessionFaulted]
    );
    assert_eq!(s.state(), SchedulerState::Faulted);
    assert!(s.advance_frame().is_empty());
    assert!(s.report_checksums(8, 1, 2).is_empty());
}

#[test]
fn disconnected_player_no_longer_stalls_and_goes_neutral() {
    let mut s = peer_session(0, 2, 8);
    let local = PlayerHandle { id: 0 };
    let remote = PlayerHandle { id: 1 };
    assert_eq!(s.add_remote_input(remote, 0, input(RIGHT)), Ok(()));
    let mut t: u64 = 0;
    while t < 3 {
        assert_eq!(s.add_local_input(local, input(0)), Ok(()));
        s.advance_frame();
        t += 1;
    }
    assert_eq!(s.current_frame(), 3);
    assert_eq!(s.add_local_input(local, input(0)), Ok(()));
    assert!(s.advance_frame().is_empty());
    assert_eq!(s.state(), SchedulerState::Stalled);
    assert_eq!(s.disconnect_player(local), Err(InputError::WrongPlayerKind));
    assert_eq!(s.disconnect_player(PlayerHandle { id: 9 }), Err(InputError::UnknownPlayer));
    assert_eq!(s.disconnect_player(remote), Ok(vec![Event::PlayerDisconnected { handle: remote }]));
    assert_eq!(s.disconnect_player(remote), Err(InputError::WrongPlayerKind));
    assert_eq!(s.add_remote_input(remote, 4, input(UP)), Err(InputError::WrongPlayerKind));
    assert_eq!(s.current_inputs(remote), Some(input(0)));
    let events = s.advance_frame();
    // Frames 1 and 2 had predicted RIGHT; they are rerun with neutral input.
    assert_eq!(events, vec![Event::RollbackOccurred { from_frame: 1, to_frame: 3 }, Event::FrameAdvanced { frame: 3 }]);
    assert_eq!(s.state(), SchedulerState::Running);
    assert_eq!(s.current_game_state().second, Position { x: 2, y: 0 });
}

#[test]
fn matching_confirmation_causes_no_rollback() {
    let mut s = peer_session(0, 4, 8);
    let local = PlayerHandle { id: 0 };
    let remote = PlayerHandle { id: 1 };
    assert_eq!(s.add_remote_input(remote, 0, input(LEFT)), Ok(()));
    let mut t: u64 = 0;
    while t < 3 {
        assert_eq!(s.add_local_input(local, input(0)), Ok(()));
        s.advance_frame();
        t += 1;
    }
    // Frames 1 and 2 were predicted as LEFT; the confirmations agree.
    assert_eq!(s.add_remote_input(remote, 1, input(LEFT)), Ok(()));
    assert_eq!(s.add_remote_input(remote, 2, input(LEFT)), Ok(()));
    assert_eq!(s.add_local_input(local, input(0)), Ok(()));
    assert_eq!(s.advance_frame(), vec![Event::FrameAdvanced { frame: 3 }]);
    assert_eq!(s.current_game_state().second, Position { x: -8, y: 0 });
}

#[test]
fn disconnect_of_a_player_ahead_still_goes_neutral() {
    let mut s = peer_session(0, 4, 8);
    let remote = PlayerHandle { id: 1 };
    assert_eq!(s.add_remote_input(remote, 0, input(UP)), Ok(()));
    assert_eq!(s.add_remote_input(remote, 1, input(UP)), Ok(()));
    assert_eq!(s.disconnect_player(remote), Ok(vec![Event::PlayerDisconnected { handle: remote }]));
    assert_eq!(s.current_inputs(remote), Some(input(UP)));
    assert_eq!(s.add_local_input(PlayerHandle { id: 0 }, input(0)), Ok(()));
    s.advance_frame();
    assert_eq!(s.add_local_input(PlayerHandle { id: 0 }, input(0)), Ok(()));
    s.advance_frame();
    assert_eq!(s.current_inputs(remote), Some(input(0)));
    assert_eq!(s.add_local_input(PlayerHandle { id: 0 }, input(0)), Ok(()));
    s.advance_frame();
    assert_eq!(s.current_game_state().second, Position { x: 0, y: 4 });
}

#[test]
fn moves_that_leave_the_field_are_not_made() {
    let far = Position { x: FIELD_LIMIT + 5, y: -FIELD_LIMIT - 5 };
    assert_eq!(move_player(far, input(0)), far);
    assert_eq!(move_player(far, input(LEFT | UP)), far);
    let inside = Position { x: FIELD_LIMIT - 2, y: 0 };
    assert_eq!(move_player(inside, input(RIGHT)), Position { x: FIELD_LIMIT, y: 0 });
}
