//! The part of STUN (RFC 5389) used to learn our public address: the
//! binding request we send, reading the binding response, and the packets
//! of UDP hole punching. Sockets and name lookup stay with the application.

use vstd::prelude::*;
use crate::text::{dec_digits, push_dec, string_of};
use crate::wire::{be16, be16_bytes, be32, be32_bytes, u16_from_le, u32_from_le};

verus! {

/// Message type of a binding request.
pub const BINDING_REQUEST: u16 = 0x0001;
/// Message type of a successful binding response.
pub const BINDING_RESPONSE: u16 = 0x0101;
/// The fixed cookie every message carries.
pub const MAGIC_COOKIE: u32 = 0x2112A442;
/// Attribute holding the address in the clear.
pub const ATTR_MAPPED_ADDRESS: u16 = 0x0001;
/// Attribute holding the address XOR-ed with the cookie.
pub const ATTR_XOR_MAPPED_ADDRESS: u16 = 0x0020;
/// Address family code of IPv4.
pub const FAMILY_IPV4: u8 = 0x01;
/// Length of the hole-punching payload.
pub const PUNCH_LEN: usize = 10;

/// An IPv4 address and port, as a STUN server reports it.
#[derive(Clone, Copy, Debug)]
pub struct MappedAddress {
    pub ip: [u8; 4],
    pub port: u16,
}

/// The 12 transaction-id bytes drawn from a seed (the clock in nanoseconds):
/// byte `i` is bits `5i` to `5i + 7` of the seed.
pub open spec fn rand_bytes_spec(seed: u128) -> Seq<u8> {
    Seq::new(12, |i: int| ((seed >> ((i * 5) as u32)) & 0xFF) as u8)
}

/// Transaction-id bytes from a seed (see [`rand_bytes_spec`]).
pub fn rand_bytes(seed: u128) -> (out: [u8; 12])
    ensures
        out@ == rand_bytes_spec(seed),
{
    let mut out = [0u8; 12];
    for i in 0..12
        invariant
            out@.len() == 12,
            forall|j: int| 0 <= j < i ==> out@[j] == ((seed >> ((j * 5) as u32)) & 0xFF) as u8,
    {
        let shift: u32 = (i * 5) as u32;
        out[i] = ((seed >> shift) & 0xFF) as u8;
    }
    assert(out@ =~= rand_bytes_spec(seed));
    out
}

/// A binding request: its type, an empty body, the cookie and the transaction id.
pub open spec fn binding_request_bytes(txn_id: Seq<u8>) -> Seq<u8> {
    be16_bytes(BINDING_REQUEST) + be16_bytes(0) + be32_bytes(MAGIC_COOKIE) + txn_id
}

/// The 20-byte binding request with the given transaction id.
pub fn build_binding_request(txn_id: [u8; 12]) -> (buf: [u8; 20])
    ensures
        buf@ == binding_request_bytes(txn_id@),
{
    let t = txn_id;
    let buf = [
        0x00, 0x01, 0x00, 0x00, 0x21, 0x12, 0xA4, 0x42, t[0], t[1], t[2], t[3], t[4], t[5], t[6], t[7],
        t[8], t[9], t[10], t[11],
    ];
    assert(be16_bytes(BINDING_REQUEST) =~= seq![0x00u8, 0x01u8]);
    assert(be16_bytes(0) =~= seq![0x00u8, 0x00u8]);
    assert(be32_bytes(MAGIC_COOKIE) =~= seq![0x21u8, 0x12u8, 0xA4u8, 0x42u8]);
    assert(buf@ =~= binding_request_bytes(txn_id@));
    buf
}

/// A MAPPED-ADDRESS body: family, port and address in the clear; only IPv4.
pub open spec fn mapped_address_spec(data: Seq<u8>) -> Option<MappedAddress> {
    if data.len() < 8 || data[1] != FAMILY_IPV4 {
        None
    } else {
        Some(MappedAddress { ip: [data[4], data[5], data[6], data[7]], port: be16(data[2], data[3]) })
    }
}

/// An XOR-MAPPED-ADDRESS body: the port XOR-ed with the cookie's high half,
/// the address XOR-ed with the cookie bytes `magic`; only IPv4.
pub open spec fn xor_mapped_address_spec(data: Seq<u8>, magic: Seq<u8>) -> Option<MappedAddress> {
    if data.len() < 8 || data[1] != FAMILY_IPV4 {
        None
    } else {
        Some(
            MappedAddress {
                ip: [data[4] ^ magic[0], data[5] ^ magic[1], data[6] ^ magic[2], data[7] ^ magic[3]],
                port: be16(data[2], data[3]) ^ ((MAGIC_COOKIE >> 16) as u16),
            },
        )
    }
}

/// Read a MAPPED-ADDRESS body (see [`mapped_address_spec`]).
pub fn parse_mapped_address(data: &[u8]) -> (r: Option<MappedAddress>)
    ensures
        r == mapped_address_spec(data@),
{
    if data.len() < 8 {
        return None;
    }
    let family = data[1];
    let port = u16_from_le(data[3], data[2]);
    if family == FAMILY_IPV4 {
        Some(MappedAddress { ip: [data[4], data[5], data[6], data[7]], port })
    } else {
        None
    }
}

/// Read an XOR-MAPPED-ADDRESS body (see [`xor_mapped_address_spec`]).
pub fn parse_xor_mapped_address(data: &[u8], magic: &[u8]) -> (r: Option<MappedAddress>)
    requires
        data@.len() >= 8 && data@[1] == FAMILY_IPV4 ==> magic@.len() >= 4,
    ensures
        r == xor_mapped_address_spec(data@, magic@),
{
    if data.len() < 8 {
        return None;
    }
    let family = data[1];
    let xor_port = u16_from_le(data[3], data[2]);
    let port = xor_port ^ ((MAGIC_COOKIE >> 16) as u16);
    if family == FAMILY_IPV4 {
        let ip = [data[4] ^ magic[0], data[5] ^ magic[1], data[6] ^ magic[2], data[7] ^ magic[3]];
        Some(MappedAddress { ip, port })
    } else {
        None
    }
}

/// An attribute's length rounded up to the 4-byte boundary attributes are padded to.
pub open spec fn padded_len(len: nat) -> nat {
    ((len + 3) / 4 * 4) as nat
}

/// The address found by walking the attributes in `rest`: each is a type,
/// a length and a body (cut short at the end of the message); the first
/// XOR-MAPPED-ADDRESS or MAPPED-ADDRESS that reads as an IPv4 address wins.
pub open spec fn attr_scan(rest: Seq<u8>, magic: Seq<u8>) -> Option<MappedAddress>
    decreases rest.len(),
{
    if rest.len() < 4 {
        None
    } else {
        let attr_type = be16(rest[0], rest[1]);
        let len = be16(rest[2], rest[3]) as nat;
        let avail = (rest.len() - 4) as nat;
        let data = rest.subrange(4, 4 + (if len < avail { len } else { avail }) as int);
        let found = if attr_type == ATTR_XOR_MAPPED_ADDRESS {
            xor_mapped_address_spec(data, magic)
        } else if attr_type == ATTR_MAPPED_ADDRESS {
            mapped_address_spec(data)
        } else {
            None
        };
        if found is Some {
            found
        } else if 4 + padded_len(len) >= rest.len() {
            None
        } else {
            attr_scan(rest.subrange(4 + padded_len(len) as int, rest.len() as int), magic)
        }
    }
}

/// What a datagram says our public address is: a binding response with the
/// cookie, whose attributes (as many bytes as its length field says, or as
/// arrived) hold an address.
pub open spec fn binding_response_spec(b: Seq<u8>) -> Option<MappedAddress> {
    if b.len() < 20 || be16(b[0], b[1]) != BINDING_RESPONSE || be32(b[4], b[5], b[6], b[7]) != MAGIC_COOKIE {
        None
    } else {
        let msg_len = be16(b[2], b[3]) as int;
        let avail = b.len() - 20;
        let n = if msg_len < avail { msg_len } else { avail };
        attr_scan(b.subrange(20, 20 + n), b.subrange(4, 8))
    }
}

/// Read a binding response (see [`binding_response_spec`]).
pub fn parse_binding_response(buf: &[u8]) -> (r: Option<MappedAddress>)
    ensures
        r == binding_response_spec(buf@),
{
    if buf.len() < 20 {
        return None;
    }
    let msg_type = u16_from_le(buf[1], buf[0]);
    if msg_type != BINDING_RESPONSE {
        return None;
    }
    let cookie = u32_from_le(buf[7], buf[6], buf[5], buf[4]);
    if cookie != MAGIC_COOKIE {
        return None;
    }
    let msg_len = u16_from_le(buf[3], buf[2]) as usize;
    let avail = buf.len() - 20;
    let n = if msg_len < avail { msg_len } else { avail };
    let end = 20 + n;
    let magic = [buf[4], buf[5], buf[6], buf[7]];
    assert(magic@ =~= buf@.subrange(4, 8));
    let attrs = &buf[20..end];
    scan_attrs(attrs, &magic)
}

/// Walk the attributes in `rest` (see [`attr_scan`]).
fn scan_attrs(rest: &[u8], magic: &[u8; 4]) -> (r: Option<MappedAddress>)
    ensures
        r == attr_scan(rest@, magic@),
    decreases rest@.len(),
{
    let n = rest.len();
    if n < 4 {
        return None;
    }
    let attr_type = u16_from_le(rest[1], rest[0]);
    let attr_len = u16_from_le(rest[3], rest[2]) as usize;
    let avail = n - 4;
    let take = if attr_len < avail { attr_len } else { avail };
    let data = &rest[4..4 + take];
    assert(data@ =~= rest@.subrange(4, 4 + take as int));
    let found = if attr_type == ATTR_XOR_MAPPED_ADDRESS {
        parse_xor_mapped_address(data, magic)
    } else if attr_type == ATTR_MAPPED_ADDRESS {
        parse_mapped_address(data)
    } else {
        None
    };
    if found.is_some() {
        return found;
    }
    let padded = (attr_len + 3) / 4 * 4;
    assert(padded == padded_len(attr_len as nat));
    if padded >= n - 4 {
        None
    } else {
        let next = &rest[4 + padded..n];
        assert(next@ =~= rest@.subrange(4 + padded as int, n as int));
        scan_attrs(next, magic)
    }
}

/// A public address as `a.b.c.d:port`.
pub open spec fn address_text(a: MappedAddress) -> Seq<char> {
    dec_digits(a.ip[0] as nat) + seq!['.'] + dec_digits(a.ip[1] as nat) + seq!['.'] + dec_digits(a.ip[2] as nat)
        + seq!['.'] + dec_digits(a.ip[3] as nat) + seq![':'] + dec_digits(a.port as nat)
}

impl MappedAddress {
    /// The address as `a.b.c.d:port` (see [`address_text`]).
    pub fn text(&self) -> (s: String)
        ensures
            s@ == address_text(*self),
    {
        let mut v: Vec<char> = Vec::new();
        push_dec(&mut v, self.ip[0] as u64);
        v.push('.');
        push_dec(&mut v, self.ip[1] as u64);
        v.push('.');
        push_dec(&mut v, self.ip[2] as u64);
        v.push('.');
        push_dec(&mut v, self.ip[3] as u64);
        v.push(':');
        push_dec(&mut v, self.port as u64);
        assert(v@ =~= address_text(*self));
        string_of(&v)
    }
}

/// The hole-punching payload, `HOWL_PUNCH` in ASCII.
pub open spec fn punch_bytes() -> Seq<u8> {
    seq![0x48u8, 0x4F, 0x57, 0x4C, 0x5F, 0x50, 0x55, 0x4E, 0x43, 0x48]
}

/// The hole-punching payload.
pub fn punch_packet() -> (p: [u8; 10])
    ensures
        p@ == punch_bytes(),
{
    let p = [0x48u8, 0x4F, 0x57, 0x4C, 0x5F, 0x50, 0x55, 0x4E, 0x43, 0x48];
    assert(p@ =~= punch_bytes());
    p
}

/// Whether a received datagram is the peer's punch: it begins with the payload.
pub fn is_punch_reply(buf: &[u8]) -> (b: bool)
    ensures
        b == (buf@.len() >= PUNCH_LEN && buf@.subrange(0, PUNCH_LEN as int) == punch_bytes()),
{
    let p = punch_packet();
    if buf.len() < PUNCH_LEN {
        return false;
    }
    for i in 0..PUNCH_LEN
        invariant
            buf@.len() >= PUNCH_LEN,
            p@ == punch_bytes(),
            forall|j: int| 0 <= j < i ==> buf@[j] == p@[j],
    {
        if buf[i] != p[i] {
            assert(buf@.subrange(0, PUNCH_LEN as int)[i as int] != punch_bytes()[i as int]);
            return false;
        }
    }
    assert(buf@.subrange(0, PUNCH_LEN as int) =~= punch_bytes());
    true
}

/// How many punches open the NAT mapping.
pub const PUNCH_COUNT: u64 = 3;

/// The time between two punches, in milliseconds.
pub const PUNCH_INTERVAL_MS: u64 = 200;

/// When each punch is sent, in milliseconds from the first: three punches,
/// 200 ms apart.
pub fn punch_schedule() -> (offsets: Vec<u64>)
    ensures
        offsets@ == Seq::new(PUNCH_COUNT as nat, |i: int| (i * PUNCH_INTERVAL_MS) as u64),
{
    let mut offsets: Vec<u64> = Vec::new();
    for i in 0..PUNCH_COUNT
        invariant
            offsets@ == Seq::new(i as nat, |j: int| (j * PUNCH_INTERVAL_MS) as u64),
    {
        offsets.push(i * PUNCH_INTERVAL_MS);
        assert(offsets@ =~= Seq::new((i + 1) as nat, |j: int| (j * PUNCH_INTERVAL_MS) as u64));
    }
    offsets
}

} // verus!
