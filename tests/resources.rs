use rx_history::{Bgra8, Resources, SnapshotId, ViewExtent, ViewId};

#[test]
fn add_get_remove_view() {
    let mut r = Resources::new();
    let px = vec![Bgra8::new(1, 2, 3, 4); 6];
    r.add_view(ViewId(1), 3, 2, &px);
    assert!(r.has_view(ViewId(1)));
    let (s, p) = r.get_snapshot(ViewId(1));
    assert_eq!((s.width(), s.height()), (3, 2));
    assert_eq!(s.id(), SnapshotId(0));
    assert_eq!(p, &px[..]);
    r.remove_view(ViewId(1));
    assert!(!r.has_view(ViewId(1)));
    assert!(r.get_view_mut(ViewId(1)).is_none());
}

#[test]
fn blank_view_is_transparent() {
    let mut r = Resources::new();
    r.add_blank_view(ViewId(2), 4, 3);
    let (s, p) = r.get_snapshot(ViewId(2));
    assert_eq!(p.len(), 12);
    assert!(p.iter().all(|c| *c == Bgra8::transparent()));
    assert_eq!(s.pixels(), p.to_vec());
}

#[test]
fn edit_through_view_history() {
    let mut r = Resources::new();
    r.add_blank_view(ViewId(1), 2, 1);
    let new_px = vec![Bgra8::new(9, 9, 9, 9); 2];
    r.get_view_mut(ViewId(1)).unwrap().push_snapshot(&new_px, ViewExtent::new(2, 1, 1));
    assert_eq!(r.get_snapshot(ViewId(1)).1, &new_px[..]);
    r.get_view_mut(ViewId(1)).unwrap().prev_snapshot();
    assert_eq!(r.get_snapshot(ViewId(1)).1, &[Bgra8::transparent(); 2][..]);
    assert_eq!(ViewId::default(), ViewId(0));
}

#[test]
fn replay_state_lives_in_table() {
    let mut r = Resources::new();
    assert!(r.replay.record_frame(&[1, 2, 3]));
    assert_eq!(r.replay.expected().len(), 1);
}
