use howlingwind::stun::{
    build_binding_request, is_punch_reply, parse_binding_response, parse_mapped_address, parse_xor_mapped_address,
    punch_packet, punch_schedule, rand_bytes, PUNCH_COUNT, PUNCH_INTERVAL_MS,
};

const COOKIE: [u8; 4] = [0x21, 0x12, 0xA4, 0x42];

fn response(attrs: &[u8], declared_len: u16) -> Vec<u8> {
    let mut b = vec![0x01, 0x01];
    b.extend_from_slice(&declared_len.to_be_bytes());
    b.extend_from_slice(&COOKIE);
    b.extend_from_slice(&[7u8; 12]);
    b.extend_from_slice(attrs);
    b
}

fn xor_attr(ip: [u8; 4], port: u16) -> Vec<u8> {
    let xp = port ^ 0x2112;
    let mut a = vec![0x00, 0x20, 0x00, 0x08, 0x00, 0x01];
    a.extend_from_slice(&xp.to_be_bytes());
    for i in 0..4 {
        a.push(ip[i] ^ COOKIE[i]);
    }
    a
}

#[test]
fn binding_request_layout() {
    let txn = [1u8, 2, 3, 4, 5, 6, 7, 8, 9, 10, 11, 12];
    let r = build_binding_request(txn);
    assert_eq!(&r[0..8], &[0x00, 0x01, 0x00, 0x00, 0x21, 0x12, 0xA4, 0x42]);
    assert_eq!(&r[8..20], &txn);
}

#[test]
fn transaction_id_from_seed() {
    let seed: u128 = 0x0123_4567_89AB_CDEF_0011_2233_4455_6677;
    let t = rand_bytes(seed);
    for i in 0..12 {
        assert_eq!(t[i], ((seed >> (i * 5)) & 0xFF) as u8);
    }
    assert_eq!(rand_bytes(0), [0u8; 12]);
}

#[test]
fn xor_mapped_address_is_decoded() {
    let buf = response(&xor_attr([203, 0, 113, 5], 54321), 12);
    let a = parse_binding_response(&buf).expect("address");
    assert_eq!(a.ip, [203, 0, 113, 5]);
    assert_eq!(a.port, 54321);
    assert_eq!(a.text(), "203.0.113.5:54321");
}

#[test]
fn mapped_address_after_an_unknown_attribute() {
    let mut attrs = vec![0x80, 0x22, 0x00, 0x05, b'h', b'o', b'w', b'l', b'!', 0, 0, 0];
    attrs.extend_from_slice(&[0x00, 0x01, 0x00, 0x08, 0x00, 0x01, 0x1F, 0x90, 10, 0, 0, 7]);
    let len = attrs.len() as u16;
    let a = parse_binding_response(&response(&attrs, len)).expect("address");
    assert_eq!(a.ip, [10, 0, 0, 7]);
    assert_eq!(a.port, 8080);
}

#[test]
fn responses_that_give_no_address() {
    let good = response(&xor_attr([1, 2, 3, 4], 5), 12);
    assert!(parse_binding_response(&good[..19]).is_none());
    let mut wrong_type = good.clone();
    wrong_type[1] = 0x11;
    assert!(parse_binding_response(&wrong_type).is_none());
    let mut wrong_cookie = good.clone();
    wrong_cookie[4] = 0;
    assert!(parse_binding_response(&wrong_cookie).is_none());
    let ipv6 = response(&[0x00, 0x20, 0x00, 0x08, 0x00, 0x02, 0, 0, 0, 0, 0, 0], 12);
    assert!(parse_binding_response(&ipv6).is_none());
    // The declared length covers only part of the attribute.
    assert!(parse_binding_response(&response(&xor_attr([1, 2, 3, 4], 5), 8)).is_none());
    // A declared length past the end is cut to what arrived.
    assert!(parse_binding_response(&response(&xor_attr([1, 2, 3, 4], 5), 400)).is_some());
}

#[test]
fn attribute_bodies() {
    assert!(parse_mapped_address(&[0, 1, 0, 80, 1, 2, 3]).is_none());
    let m = parse_mapped_address(&[0, 1, 0, 80, 1, 2, 3, 4]).unwrap();
    assert_eq!((m.ip, m.port), ([1, 2, 3, 4], 80));
    assert!(parse_mapped_address(&[0, 2, 0, 80, 1, 2, 3, 4]).is_none());
    let x = parse_xor_mapped_address(&[0, 1, 0x21, 0x12, 0x21, 0x12, 0xA4, 0x42], &COOKIE).unwrap();
    assert_eq!((x.ip, x.port), ([0, 0, 0, 0], 0));
}

#[test]
fn hole_punching_packets() {
    let p = punch_packet();
    assert_eq!(&p, b"HOWL_PUNCH");
    assert!(is_punch_reply(b"HOWL_PUNCH"));
    assert!(is_punch_reply(b"HOWL_PUNCH and more"));
    assert!(!is_punch_reply(b"HOWL_PUNC"));
    assert!(!is_punch_reply(b"howl_punch"));
}

#[test]
fn three_punches_two_hundred_ms_apart() {
    assert_eq!(punch_schedule(), vec![0, 200, 400]);
    assert_eq!((PUNCH_COUNT, PUNCH_INTERVAL_MS), (3, 200));
}
