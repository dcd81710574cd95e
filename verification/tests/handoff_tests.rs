use spectrum_bars::handoff::{RenderHandoff, Snapshot};

#[test]
fn handoff_starts_with_the_empty_snapshot() {
    let handoff = RenderHandoff::new();
    let seen = handoff.latest();
    assert!(seen.bars.is_empty());
    assert!(seen.colors.is_empty());
}

#[test]
fn reader_sees_the_last_snapshot_written() {
    let mut handoff = RenderHandoff::new();
    handoff.publish(Snapshot { bars: vec![1, 2], colors: vec![(1, 1, 1), (2, 2, 2)] });
    handoff.publish(Snapshot { bars: vec![3], colors: vec![(3, 3, 3)] });
    let seen = handoff.latest();
    assert_eq!(seen.bars, vec![3]);
    assert_eq!(seen.colors, vec![(3, 3, 3)]);
}

#[test]
fn reading_does_not_empty_the_slot() {
    let mut handoff = RenderHandoff::new();
    handoff.publish(Snapshot { bars: vec![5, 6], colors: vec![(9, 9, 9)] });
    let first = handoff.latest();
    let second = handoff.latest();
    assert_eq!(first.bars, second.bars);
    assert_eq!(first.colors, second.colors);
    assert_eq!(second.bars, vec![5, 6]);
}

#[test]
fn snapshot_copy_is_equal_and_independent() {
    let source = Snapshot { bars: vec![1, 2, 3], colors: vec![(1, 2, 3)] };
    let mut copy = source.duplicate();
    copy.bars.push(4);
    assert_eq!(source.bars, vec![1, 2, 3]);
    assert_eq!(source.colors, vec![(1, 2, 3)]);
    assert_eq!(copy.bars, vec![1, 2, 3, 4]);
}

#[test]
fn handoff_behind_a_lock_hands_over_whole_snapshots() {
    let shared = std::sync::Arc::new(std::sync::Mutex::new(RenderHandoff::new()));
    let writer = shared.clone();
    for frame in 1u64..50 {
        let snapshot = Snapshot { bars: vec![frame; 8], colors: vec![((frame % 256) as u8, 0, 0); 8] };
        writer.lock().unwrap().publish(snapshot);
        if frame % 7 == 0 {
            let seen = shared.lock().unwrap().latest();
            assert_eq!(seen.bars, vec![frame; 8]);
            assert_eq!(seen.colors, vec![((frame % 256) as u8, 0, 0); 8]);
        }
    }
    assert_eq!(shared.lock().unwrap().latest().bars, vec![49; 8]);
}
