use bevy_replicon_snap::interpolation::SnapshotBuffer;
use bevy_replicon_snap::prediction::{
    owner_prediction_init_system, predicted_snapshot_system, predicted_update_system,
    server_update_system, ClientEvent, OwnershipTag, Predict, PredictedEventHistory,
};
use bevy_replicon_snap::NetworkOwner;

const SECOND: u64 = 1_000_000;

fn ticks(history: &PredictedEventHistory<i64>) -> Vec<u32> {
    history.0.iter().map(|e| e.tick).collect()
}

fn history_with_ticks(stamps: &[u32]) -> PredictedEventHistory<i64> {
    let mut history = PredictedEventHistory::new();
    for (i, tick) in stamps.iter().enumerate() {
        history.insert(i as i64, *tick, 1_000);
    }
    history
}

#[test]
fn insert_appends_in_capture_order() {
    let mut history = PredictedEventHistory::new();
    history.insert(1i64, 4, 10).insert(2, 4, 11).insert(3, 2, 12);
    assert_eq!(ticks(&history), vec![4, 4, 2]);
    assert_eq!(history.0[2].value, 3);
    assert_eq!(history.0[2].delta_time, 12);
}

#[test]
fn remove_stale_drops_acknowledged_events() {
    let mut history = history_with_ticks(&[1, 2, 3, 3, 4]);
    history.remove_stale(3);
    assert_eq!(ticks(&history), vec![3, 3, 4]);
    assert_eq!(history.0[0].value, 2);
    history.remove_stale(3);
    assert_eq!(ticks(&history), vec![3, 3, 4]);
    history.remove_stale(0);
    assert_eq!(ticks(&history), vec![3, 3, 4]);
    history.remove_stale(10);
    assert!(history.0.is_empty());
}

#[test]
fn remove_stale_stops_at_the_first_fresh_event() {
    let mut history = history_with_ticks(&[1, 6, 2, 7]);
    history.remove_stale(5);
    assert_eq!(ticks(&history), vec![6, 2, 7]);
}

#[test]
fn predict_returns_the_pending_events() {
    let mut history = history_with_ticks(&[8, 9, 9, 10]);
    let pending: Vec<u32> = history.predict(9).iter().map(|e| e.tick).collect();
    assert_eq!(pending, vec![9, 9, 10]);
    let again: Vec<u32> = history.predict(9).iter().map(|e| e.tick).collect();
    assert_eq!(again, vec![9, 9, 10]);
    assert!(history.predict(11).is_empty());
}

#[test]
fn velocity_events_move_a_coordinate() {
    let mut x = 10i64;
    x.apply_event(&3, SECOND / 2, &());
    assert_eq!(x, 11);
    x.apply_event(&-3, SECOND / 2, &());
    assert_eq!(x, 10);
    x.apply_event(&-7, 2 * SECOND, &());
    assert_eq!(x, -4);
    let mut top = i64::MAX - 1;
    top.apply_event(&i64::MAX, u64::MAX, &());
    assert_eq!(top, i64::MAX);
    let mut bottom = i64::MIN + 1;
    bottom.apply_event(&i64::MIN, u64::MAX, &());
    assert_eq!(bottom, i64::MIN);
    let mut p = (0i64, 0i64, 5i64);
    p.apply_event(&(1, -2, 0), SECOND, &());
    assert_eq!(p, (1, -2, 5));
}

#[test]
fn prediction_replays_unacknowledged_inputs() {
    let mut buffer = SnapshotBuffer::new();
    buffer.insert((0i64, 0i64), 100);
    let mut history = PredictedEventHistory::new();
    let mut position = (0i64, 0i64);

    predicted_update_system(&mut position, &buffer, 100, &(), vec![(1, 0)], &mut history, SECOND);
    assert_eq!(position, (1, 0));
    predicted_update_system(&mut position, &buffer, 101, &(), vec![(1, 0), (1, 0)], &mut history, SECOND);
    assert_eq!(position, (3, 0));
    assert_eq!(history.0.len(), 3);

    buffer.insert((1, 0), 101);
    predicted_update_system(&mut position, &buffer, 101, &(), vec![], &mut history, SECOND);
    assert_eq!(position, (3, 0));
    assert_eq!(history.0.len(), 2);
}

#[test]
fn prediction_takes_the_server_correction() {
    let mut buffer = SnapshotBuffer::new();
    buffer.insert((0i64, 0i64), 100);
    let mut history = PredictedEventHistory::new();
    let mut position = (0i64, 0i64);
    predicted_update_system(&mut position, &buffer, 100, &(), vec![(1, 0)], &mut history, SECOND);
    predicted_update_system(&mut position, &buffer, 101, &(), vec![(1, 0), (1, 0)], &mut history, SECOND);
    assert_eq!(position, (3, 0));
    buffer.insert((0, 5), 101);
    predicted_update_system(&mut position, &buffer, 101, &(), vec![], &mut history, SECOND);
    assert_eq!(position, (2, 5));
}

#[test]
fn prediction_is_repeatable() {
    let mut buffer = SnapshotBuffer::new();
    buffer.insert((2i64, 3i64), 50);
    let mut history = PredictedEventHistory::new();
    history.insert((4, 0), 49, SECOND).insert((0, -2), 50, SECOND / 2).insert((1, 1), 51, SECOND);
    let mut first = (0i64, 0i64);
    predicted_update_system(&mut first, &buffer, 51, &(), vec![], &mut history, SECOND);
    let mut second = (99i64, 99i64);
    predicted_update_system(&mut second, &buffer, 51, &(), vec![], &mut history, SECOND);
    assert_eq!(first, (3, 3));
    assert_eq!(second, first);
    assert_eq!(history.0.len(), 2);
}

#[test]
fn prediction_without_snapshot_keeps_the_value() {
    let buffer: SnapshotBuffer<i64> = SnapshotBuffer::new();
    let mut history = PredictedEventHistory::new();
    let mut x = 17i64;
    predicted_update_system(&mut x, &buffer, 3, &(), vec![5, 6], &mut history, 2_000);
    assert_eq!(x, 17);
    assert_eq!(ticks(&history), vec![3, 3]);
    assert_eq!(history.0[1].value, 6);
    assert_eq!(history.0[1].delta_time, 2_000);
}

#[test]
fn predicted_clock_advances() {
    let mut buffer = SnapshotBuffer::new();
    buffer.insert(1i64, 9);
    predicted_snapshot_system(&mut buffer, 16_000);
    predicted_snapshot_system(&mut buffer, 17_000);
    assert_eq!(buffer.age(), 33_000);
    assert_eq!(buffer.latest_snapshot_tick(), 9);
}

#[test]
fn server_applies_only_the_owners_events() {
    let events = vec![
        ClientEvent { client_id: 1, event: (1i64, 0i64) },
        ClientEvent { client_id: 2, event: (0, 5) },
        ClientEvent { client_id: 1, event: (0, 2) },
    ];
    let mut mine = (0i64, 0i64);
    server_update_system(&events, SECOND, &NetworkOwner(1), &mut mine, &());
    assert_eq!(mine, (1, 2));
    let mut theirs = (0i64, 0i64);
    server_update_system(&events, SECOND, &NetworkOwner(2), &mut theirs, &());
    assert_eq!(theirs, (0, 5));
    let mut nobody = (4i64, 4i64);
    server_update_system(&events, SECOND, &NetworkOwner(3), &mut nobody, &());
    assert_eq!(nobody, (4, 4));
}

#[test]
fn ownership_is_classified_once() {
    let mut a = None;
    owner_prediction_init_system(&mut a, &NetworkOwner(42), 42);
    assert_eq!(a, Some(OwnershipTag::Predicted));
    let mut b = None;
    owner_prediction_init_system(&mut b, &NetworkOwner(7), 42);
    assert_eq!(b, Some(OwnershipTag::Interpolated));
    owner_prediction_init_system(&mut a, &NetworkOwner(7), 42);
    assert_eq!(a, Some(OwnershipTag::Predicted));
    owner_prediction_init_system(&mut b, &NetworkOwner(42), 42);
    assert_eq!(b, Some(OwnershipTag::Interpolated));
}

#[test]
fn remove_stale_on_empty_history() {
    let mut history: PredictedEventHistory<i64> = PredictedEventHistory::new();
    history.remove_stale(0).remove_stale(u32::MAX);
    assert!(history.0.is_empty());
}
