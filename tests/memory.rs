use rum::memory::SegmentManager;

#[test]
fn identifiers_start_at_zero_and_grow() {
    let mut sm = SegmentManager::new();
    assert!(sm.can_allocate());
    assert_eq!(sm.allocate_segment(5), 0);
    assert_eq!(sm.allocate_segment(0), 1);
    assert_eq!(sm.allocate_segment(2), 2);
    assert_eq!(sm.get_segment(0).unwrap(), &vec![0; 5]);
    assert_eq!(sm.get_segment(1).unwrap().len(), 0);
    assert!(sm.get_segment(3).is_none());
}

#[test]
fn allocate_free_restores_the_table() {
    let mut sm = SegmentManager::new();
    sm.allocate_segment(1);
    let a = sm.allocate_segment(2);
    let id = sm.allocate_segment(7);
    sm.deallocate_segment(id);
    assert!(sm.get_segment(id).is_none());
    assert_eq!(sm.get_segment(a).unwrap(), &vec![0, 0]);
    assert_eq!(sm.get_segment(0).unwrap(), &vec![0]);
}

#[test]
fn freed_identifiers_come_back_last_in_first_out() {
    let mut sm = SegmentManager::new();
    sm.allocate_segment(1);
    let first = sm.allocate_segment(3);
    sm.deallocate_segment(first);
    let again = sm.allocate_segment(3);
    assert_eq!(again, first);
    sm.deallocate_segment(again);
    assert_eq!(sm.allocate_segment(3), first);

    let b = sm.allocate_segment(1);
    let c = sm.allocate_segment(1);
    sm.deallocate_segment(b);
    sm.deallocate_segment(c);
    assert_eq!(sm.allocate_segment(4), c);
    assert_eq!(sm.allocate_segment(4), b);
    assert_eq!(sm.allocate_segment(4), 4);
}

#[test]
fn reused_segments_are_zeroed() {
    let mut sm = SegmentManager::new();
    sm.allocate_segment(1);
    let id = sm.allocate_segment(2);
    {
        let seg = sm.get_segment_mut(id).unwrap();
        seg[0] = 11;
        seg[1] = 12;
    }
    assert_eq!(sm.get_segment(id).unwrap(), &vec![11, 12]);
    sm.deallocate_segment(id);
    assert!(sm.get_segment_mut(id).is_none());
    let id2 = sm.allocate_segment(3);
    assert_eq!(id2, id);
    assert_eq!(sm.get_segment(id2).unwrap(), &vec![0, 0, 0]);
}
