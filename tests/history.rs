use rx_history::{Bgra8, Snapshot, SnapshotId, ViewExtent, ViewResources};

fn buf(v: u8) -> Vec<Bgra8> {
    vec![Bgra8::new(v, v, v, 255); 4]
}

fn current_pixels(h: &ViewResources) -> Vec<Bgra8> {
    h.current_snapshot().1.to_vec()
}

fn extent() -> ViewExtent {
    ViewExtent::new(2, 2, 1)
}

#[test]
fn snapshot_geometry_and_pixels() {
    let px: Vec<Bgra8> = (0..12u8).map(|i| Bgra8::new(i, 0, 0, 255)).collect();
    let s = Snapshot::new(SnapshotId(3), &px, ViewExtent::new(2, 2, 3));
    assert_eq!(s.width(), 6);
    assert_eq!(s.height(), 2);
    assert_eq!(s.size(), 48);
    assert_eq!(s.id(), SnapshotId(3));
    assert_eq!(s.pixels(), px);
}

#[test]
fn snapshot_id_default_is_zero() {
    assert_eq!(SnapshotId::default(), SnapshotId(0));
}

#[test]
fn fresh_history_cannot_undo() {
    let mut h = ViewResources::new(&buf(0), 2, 2);
    assert!(h.prev_snapshot().is_none());
    assert!(h.next_snapshot().is_none());
    assert_eq!(current_pixels(&h), buf(0));
    assert_eq!(h.current_snapshot().0.id(), SnapshotId(0));
}

#[test]
fn undo_redo_symmetry() {
    let mut h = ViewResources::new(&buf(0), 2, 2);
    h.push_snapshot(&buf(1), extent());
    h.push_snapshot(&buf(2), extent());
    h.push_snapshot(&buf(3), extent());
    assert!(h.prev_snapshot().is_some());
    let back = h.prev_snapshot().map(|s| s.pixels());
    assert_eq!(back, Some(buf(1)));
    assert_eq!(current_pixels(&h), buf(1));
    h.next_snapshot();
    let fwd = h.next_snapshot().map(|s| s.id());
    assert_eq!(fwd, Some(SnapshotId(3)));
    assert_eq!(current_pixels(&h), buf(3));
    assert!(h.next_snapshot().is_none());
}

#[test]
fn push_after_undo_truncates() {
    let mut h = ViewResources::new(&buf(0), 2, 2);
    h.push_snapshot(&buf(1), extent());
    h.push_snapshot(&buf(2), extent());
    h.push_snapshot(&buf(3), extent());
    h.prev_snapshot();
    h.push_snapshot(&buf(4), extent());
    assert_eq!(current_pixels(&h), buf(4));
    assert_eq!(h.current_snapshot().0.id(), SnapshotId(3));
    assert!(h.next_snapshot().is_none());
    assert_eq!(h.prev_snapshot().map(|s| s.pixels()), Some(buf(2)));
    assert_eq!(h.prev_snapshot().map(|s| s.pixels()), Some(buf(1)));
    assert_eq!(h.prev_snapshot().map(|s| s.pixels()), Some(buf(0)));
    assert!(h.prev_snapshot().is_none());
}

#[test]
fn snapshot_ids_dense_after_truncation() {
    let mut h = ViewResources::new(&buf(0), 2, 2);
    h.push_snapshot(&buf(1), extent());
    h.push_snapshot(&buf(2), extent());
    h.prev_snapshot();
    h.prev_snapshot();
    h.push_snapshot(&buf(5), extent());
    assert_eq!(h.current_snapshot().0.id(), SnapshotId(1));
    h.push_snapshot(&buf(6), extent());
    assert_eq!(h.current_snapshot().0.id(), SnapshotId(2));
    assert_eq!(h.prev_snapshot().map(|s| s.id()), Some(SnapshotId(1)));
    assert_eq!(h.prev_snapshot().map(|s| s.id()), Some(SnapshotId(0)));
}
