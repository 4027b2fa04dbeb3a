use howlingwind::mem_report::{
    block_activity, busiest_blocks, dump_length, gecko_value_ok, half_entry, hex_address, hex_dump_lines, offset_entry,
    pack_entries, plausible_frame_counter, word_entry,
};

#[test]
fn dump_lines() {
    let buf: Vec<u8> = (0u8..20).map(|b| b + 0x3E).collect();
    let lines = hex_dump_lines(&buf, 0x80001000);
    assert_eq!(lines.len(), 2);
    assert_eq!(lines[0], "0x80001000: 3E 3F 40 41 42 43 44 45 46 47 48 49 4A 4B 4C 4D  >?@ABCDEFGHIJKLM");
    assert_eq!(lines[1], "0x80001010: 4E 4F 50 51  NOPQ");
    assert_eq!(hex_dump_lines(&[0x00, 0x7F, 0x20], 0), vec!["0x00000000: 00 7F 20  .. ".to_string()]);
    assert!(hex_dump_lines(&[], 5).is_empty());
    assert_eq!(dump_length(10), 10);
    assert_eq!(dump_length(100000), 4096);
    assert_eq!(hex_address(0xAB), "0x000000AB");
}

#[test]
fn busy_blocks_are_ranked() {
    let mut buf = vec![0u8; 3 * 1024 + 10];
    for i in 0..60 {
        buf[1024 + 2 * i + 1] = 1;
    }
    for i in 0..100 {
        buf[2048 + 2 * i] = 1;
    }
    for i in 0..5 {
        buf[3072 + 2 * i] = 1;
    }
    // Odd offsets are not looked at.
    buf[1] = 1;
    let blocks = block_activity(&buf, 0x80200000);
    assert_eq!(blocks, vec![(0x80200400, 60), (0x80200800, 100)]);
    assert_eq!(busiest_blocks(&blocks), vec![(0x80200800, 100), (0x80200400, 60)]);
    let many: Vec<(u32, u32)> = (0..30u32).map(|i| (i, 51 + (i % 3))).collect();
    let top = busiest_blocks(&many);
    assert_eq!(top.len(), 20);
    assert_eq!(top[0], (2, 53));
    assert_eq!(top[1], (5, 53));
    assert!(top.windows(2).all(|w| w[0].1 > w[1].1 || (w[0].1 == w[1].1 && w[0].0 < w[1].0)));
}

#[test]
fn unlock_code_checks() {
    assert!(gecko_value_ok(0x0001FF03, 0x0001FF03, false));
    assert!(!gecko_value_ok(0x0001FF04, 0x0001FF03, false));
    assert!(gecko_value_ok(0x00210000, 0x0021, true));
    assert!(gecko_value_ok(0xFFFF0021, 0x0021, true));
    assert!(!gecko_value_ok(0x00220022, 0x0021, true));
    assert!(plausible_frame_counter(1));
    assert!(!plausible_frame_counter(0));
    assert!(!plausible_frame_counter(0x80001234));
}

#[test]
fn packed_report_lines() {
    let entries: Vec<String> = (0..10u32).map(|i| word_entry(0x802233A0 + 4 * i, i)).collect();
    assert_eq!(entries[0], "802233A0=00000000 ");
    let lines = pack_entries(&entries);
    // Five 18-character entries exceed 80 characters.
    assert_eq!(lines.len(), 2);
    assert!(lines[0].starts_with("  802233A0=00000000 802233A4"));
    assert!(lines[0].ends_with("=00000004"));
    assert_eq!(pack_entries(&vec![]), Vec::<String>::new());
    assert_eq!(pack_entries(&vec![half_entry(0x80222E00, 0xBEEF)]), vec!["  80222E00=BEEF".to_string()]);
    assert_eq!(offset_entry(0x25A, 7), "+25A=0007 ");
}
