use howlingwind::dolphin_mem::{
    gc_offset, is_gc_ram_pointer, pad_buffer_address, pad_bytes, player_pointer_address, scan_u16, winner_outcome,
    GCPadStatus, MemorySnapshot, SaveStateRing,
};

#[test]
fn ring_keeps_recent_snapshots() {
    let mut ring = SaveStateRing::new(3);
    for f in 1..=5u32 {
        ring.push(MemorySnapshot::new(f * 10, 2));
    }
    assert!(ring.get(10).is_none());
    assert!(ring.get(20).is_none());
    assert_eq!(ring.get(30).unwrap().frame, 30);
    assert_eq!(ring.get(50).unwrap().frame, 50);
    assert_eq!(ring.get_latest_before(45).unwrap().frame, 40);
    assert_eq!(ring.get_latest_before(30).unwrap().frame, 30);
    assert!(ring.get_latest_before(29).is_none());
    let s = MemorySnapshot::new(7, 4);
    assert_eq!(s.data, vec![0u8; 4]);
}

#[test]
fn addresses() {
    assert_eq!(gc_offset(0x80226358), 0x00226358);
    assert!(is_gc_ram_pointer(0x80000000));
    assert!(!is_gc_ram_pointer(0x81800000));
    assert_eq!(player_pointer_address(0), Some(0x80226358));
    assert_eq!(player_pointer_address(1), Some(0x80226614));
    assert_eq!(pad_buffer_address(1), Some(0x802233A0 + 12));
    assert_eq!(pad_buffer_address(4), None);
}

#[test]
fn pad_layout() {
    let p = GCPadStatus { buttons: 0x1234, stick_x: -1, stick_y: 2, cstick_x: 3, cstick_y: 4, trigger_l: 5, trigger_r: 6 };
    assert_eq!(pad_bytes(&p), [0x12, 0x34, 0xFF, 2, 3, 4, 5, 6]);
}

#[test]
fn u16_scan() {
    let buf = [0x00, 0xB0, 0x00, 0xB0, 0xB0, 0x00, 0xB0];
    assert_eq!(scan_u16(&buf, 0x00B0, 0x80200000, 200), vec![0x80200000, 0x80200002, 0x80200005]);
    assert_eq!(scan_u16(&buf, 0x00B0, 0x80200000, 2), vec![0x80200000, 0x80200002]);
    assert_eq!(scan_u16(&buf, 0xB000, 0x80200000, 200), vec![0x80200001, 0x80200004]);
}

#[test]
fn winner() {
    assert_eq!(winner_outcome(150, 150, 1).result, "draw");
    assert_eq!(winner_outcome(150, 10, 1).result, "p2_win");
    assert_eq!(winner_outcome(10, 160, 1).result, "p1_win");
    assert_eq!(winner_outcome(10, 10, 1).result, "playing");
}

#[test]
fn rewind_test_picks_newest_snapshot_in_reach() {
    let mut ring = SaveStateRing::new(4);
    ring.push(MemorySnapshot::new(10, 0));
    ring.push(MemorySnapshot::new(20, 0));
    ring.push(MemorySnapshot::new(30, 0));
    let (snap, depth) = ring.rewind_snapshot(35, 10).unwrap();
    assert_eq!((snap.frame, depth), (20, 15));
    let (snap, depth) = ring.rewind_snapshot(31, 10).unwrap();
    assert_eq!((snap.frame, depth), (20, 11));
    assert!(ring.rewind_snapshot(35, 100).is_none());
}
