//! Wire formats and input bookkeeping for peer-to-peer rollback netplay.
//!
//! Inputs travel as 20-byte UDP datagrams, desync checks as 16-byte ones and
//! latency probes as 12-byte ones; the receiving side tells them apart by
//! length and magic number.

use vstd::prelude::*;
use crate::checksum::{crc32, crc32_of};
use std::collections::HashMap;
use crate::wire::{le64, le64_bytes, u64_from_le, u64_to_le, le16, le16_bytes, le32, le32_bytes, lemma_i8_u8_roundtrip, lemma_le16_roundtrip, lemma_le32_roundtrip, lemma_le64_roundtrip, u16_from_le, u16_to_le, u32_from_le, u32_to_le};

verus! {

/// "HOWL": the magic number of an input packet.
pub const PACKET_MAGIC: u32 = 0x484F574C;
/// Length of an input packet on the wire.
pub const PACKET_SIZE: usize = 20;
/// "SYNC": the magic number of a desync-check packet.
pub const SYNC_MAGIC: u32 = 0x53594E43;
/// Length of a desync-check packet on the wire.
pub const SYNC_PACKET_SIZE: usize = 16;
/// "PING": the magic number of a latency probe.
pub const PING_MAGIC: u32 = 0x50494E47;
/// "PONG": the magic number of the reply to a latency probe.
pub const PONG_MAGIC: u32 = 0x504F4E47;
/// Length of a probe or reply: magic and a microsecond timestamp.
pub const PING_PACKET_SIZE: usize = 12;
/// Frames at or above this number mark controller-test packets, never game inputs.
pub const TEST_FRAME_FLOOR: u32 = 90000;
/// The frame number a controller-test packet carries.
pub const TEST_FRAME: u32 = 99999;

/// Controller input for one frame.
#[derive(Clone, Copy, Debug, PartialEq, Eq, Structural)]
pub struct FrameInput {
    /// GameCube button bitmask.
    pub buttons: u16,
    pub stick_x: i8,
    pub stick_y: i8,
    pub cstick_x: i8,
    pub cstick_y: i8,
    pub trigger_l: u8,
    pub trigger_r: u8,
}

/// No buttons, sticks centred, triggers released.
pub open spec fn neutral_input() -> FrameInput {
    FrameInput { buttons: 0, stick_x: 0, stick_y: 0, cstick_x: 0, cstick_y: 0, trigger_l: 0, trigger_r: 0 }
}

impl Default for FrameInput {
    fn default() -> (r: Self)
        ensures
            r == neutral_input(),
    {
        FrameInput { buttons: 0, stick_x: 0, stick_y: 0, cstick_x: 0, cstick_y: 0, trigger_l: 0, trigger_r: 0 }
    }
}

/// One frame of input from one player, as sent over the network.
#[derive(Clone, Copy, Debug)]
pub struct InputPacket {
    pub frame: u32,
    pub player_id: u8,
    pub input: FrameInput,
    /// CRC-32 of the packet body; set when a packet is read off the wire.
    pub checksum: u32,
}

/// The 13 bytes of an input packet that the checksum covers.
pub open spec fn input_body(frame: u32, player_id: u8, input: FrameInput) -> Seq<u8> {
    le32_bytes(frame) + seq![player_id] + le16_bytes(input.buttons) + seq![
        input.stick_x as u8,
        input.stick_y as u8,
        input.cstick_x as u8,
        input.cstick_y as u8,
        input.trigger_l,
        input.trigger_r,
    ]
}

/// The wire form of an input packet whose body has checksum `crc`: magic,
/// body, and the low three bytes of `crc`. The packet's own `checksum` field
/// is not sent.
pub open spec fn input_packet_bytes_with(p: InputPacket, crc: u32) -> Seq<u8> {
    le32_bytes(PACKET_MAGIC) + input_body(p.frame, p.player_id, p.input) + le32_bytes(crc).take(3)
}

/// The wire form of an input packet: its body's CRC-32 goes in the last
/// three bytes (see [`input_packet_bytes_with`]).
pub open spec fn input_packet_bytes(p: InputPacket) -> Seq<u8> {
    input_packet_bytes_with(p, crc32_of(input_body(p.frame, p.player_id, p.input)))
}

/// What reading a 20-byte datagram whose body has checksum `crc` yields:
/// nothing when the magic is wrong or the low 24 bits of `crc` do not match
/// bytes 17..20; otherwise the packet, with `crc` as checksum.
pub open spec fn parse_input_packet_with(b: Seq<u8>, crc: u32) -> Option<InputPacket> {
    if le32(b[0], b[1], b[2], b[3]) != PACKET_MAGIC {
        None
    } else if crc % 0x1000000 != b[17] + b[18] * 256 + b[19] * 65536 {
        None
    } else {
        Some(
            InputPacket {
                frame: le32(b[4], b[5], b[6], b[7]),
                player_id: b[8],
                input: FrameInput {
                    buttons: le16(b[9], b[10]),
                    stick_x: b[11] as i8,
                    stick_y: b[12] as i8,
                    cstick_x: b[13] as i8,
                    cstick_y: b[14] as i8,
                    trigger_l: b[15],
                    trigger_r: b[16],
                },
                checksum: crc,
            },
        )
    }
}

/// What reading a 20-byte datagram as an input packet yields, the checksum
/// being the CRC-32 of bytes 4..17 (see [`parse_input_packet_with`]).
pub open spec fn parse_input_packet(b: Seq<u8>) -> Option<InputPacket> {
    parse_input_packet_with(b, crc32_of(b.subrange(4, 17)))
}

impl InputPacket {
    /// The 20 bytes of the packet, given its body's checksum.
    pub fn encode(&self, crc: u32) -> (buf: [u8; 20])
        ensures
            buf@ == input_packet_bytes_with(*self, crc),
    {
        let m = u32_to_le(PACKET_MAGIC);
        let f = u32_to_le(self.frame);
        let bt = u16_to_le(self.input.buttons);
        let c = u32_to_le(crc);
        let buf = [
            m[0], m[1], m[2], m[3], f[0], f[1], f[2], f[3], self.player_id, bt[0], bt[1], self.input.stick_x as u8,
            self.input.stick_y as u8, self.input.cstick_x as u8, self.input.cstick_y as u8, self.input.trigger_l,
            self.input.trigger_r, c[0], c[1], c[2],
        ];
        assert(buf@ =~= input_packet_bytes_with(*self, crc));
        buf
    }

    /// Encode for the wire (20 bytes).
    pub fn serialize(&self) -> (buf: [u8; 20])
        ensures
            buf@ == input_packet_bytes(*self),
    {
        let f = u32_to_le(self.frame);
        let bt = u16_to_le(self.input.buttons);
        let body: Vec<u8> = vec![
            f[0], f[1], f[2], f[3], self.player_id, bt[0], bt[1], self.input.stick_x as u8,
            self.input.stick_y as u8, self.input.cstick_x as u8, self.input.cstick_y as u8, self.input.trigger_l,
            self.input.trigger_r,
        ];
        assert(body@ =~= input_body(self.frame, self.player_id, self.input));
        let crc = crc32(body.as_slice());
        self.encode(crc)
    }

    /// Read a 20-byte datagram whose body has checksum `crc`; `None` when the
    /// magic or the checksum is wrong.
    pub fn decode(buf: &[u8; 20], crc: u32) -> (r: Option<InputPacket>)
        ensures
            r == parse_input_packet_with(buf@, crc),
    {
        let magic = u32_from_le(buf[0], buf[1], buf[2], buf[3]);
        if magic != PACKET_MAGIC {
            return None;
        }
        let received_crc = buf[17] as u32 + (buf[18] as u32) * 256 + (buf[19] as u32) * 65536;
        if crc % 0x1000000 != received_crc {
            return None;
        }
        Some(
            InputPacket {
                frame: u32_from_le(buf[4], buf[5], buf[6], buf[7]),
                player_id: buf[8],
                input: FrameInput {
                    buttons: u16_from_le(buf[9], buf[10]),
                    stick_x: buf[11] as i8,
                    stick_y: buf[12] as i8,
                    cstick_x: buf[13] as i8,
                    cstick_y: buf[14] as i8,
                    trigger_l: buf[15],
                    trigger_r: buf[16],
                },
                checksum: crc,
            },
        )
    }

    /// Decode a 20-byte datagram; `None` when the magic or checksum is wrong.
    pub fn deserialize(buf: &[u8; 20]) -> (r: Option<InputPacket>)
        ensures
            r == parse_input_packet(buf@),
    {
        let body: Vec<u8> = vec![
            buf[4], buf[5], buf[6], buf[7], buf[8], buf[9], buf[10], buf[11], buf[12], buf[13],
            buf[14], buf[15], buf[16],
        ];
        assert(body@ =~= buf@.subrange(4, 17));
        let crc = crc32(body.as_slice());
        InputPacket::decode(buf, crc)
    }
}

/// Reading back a packet encoded with some checksum, against that same
/// checksum, gives the same frame, player and input, with that checksum.
pub proof fn lemma_input_packet_roundtrip_with(p: InputPacket, crc: u32)
    ensures
        parse_input_packet_with(input_packet_bytes_with(p, crc), crc) == Some(InputPacket { checksum: crc, ..p }),
{
    lemma_le32_roundtrip(PACKET_MAGIC);
    lemma_le32_roundtrip(p.frame);
    lemma_le16_roundtrip(p.input.buttons);
    lemma_i8_u8_roundtrip(p.input.stick_x);
    lemma_i8_u8_roundtrip(p.input.stick_y);
    lemma_i8_u8_roundtrip(p.input.cstick_x);
    lemma_i8_u8_roundtrip(p.input.cstick_y);
    lemma_crc24(crc);
}

/// Reading back an encoded input packet gives the same frame, player and
/// input, with the checksum of its body filled in.
pub proof fn lemma_input_packet_roundtrip(p: InputPacket)
    ensures
        parse_input_packet(input_packet_bytes(p)) == Some(
            InputPacket { checksum: crc32_of(input_body(p.frame, p.player_id, p.input)), ..p },
        ),
{
    let b = input_packet_bytes(p);
    let body = input_body(p.frame, p.player_id, p.input);
    let crc = crc32_of(body);
    assert(b.subrange(4, 17) =~= body);
    lemma_le32_roundtrip(PACKET_MAGIC);
    lemma_le32_roundtrip(p.frame);
    lemma_le16_roundtrip(p.input.buttons);
    lemma_i8_u8_roundtrip(p.input.stick_x);
    lemma_i8_u8_roundtrip(p.input.stick_y);
    lemma_i8_u8_roundtrip(p.input.cstick_x);
    lemma_i8_u8_roundtrip(p.input.cstick_y);
    lemma_crc24(crc);
}

/// The low three little-endian bytes of a value make up its low 24 bits.
proof fn lemma_crc24(v: u32)
    ensures
        v % 0x1000000 == le32_bytes(v)[0] + le32_bytes(v)[1] * 256 + le32_bytes(v)[2] * 65536,
{
    let b0 = v % 256;
    let q0 = v / 256;
    let b1 = q0 % 256;
    let q1 = q0 / 256;
    let b2 = q1 % 256;
    assert(v / 65536 == q1) by (nonlinear_arith)
        requires
            q0 == v / 256,
            q1 == q0 / 256,
            v >= 0,
    ;
    assert(v % 0x1000000 == b0 + b1 * 256 + b2 * 65536) by (nonlinear_arith)
        requires
            b0 == v % 256,
            q0 == v / 256,
            b1 == q0 % 256,
            q1 == q0 / 256,
            b2 == q1 % 256,
            v >= 0,
    ;
}

/// A desync check: the hash of the critical game state at one frame.
#[derive(Clone, Copy, Debug)]
pub struct SyncPacket {
    pub frame: u32,
    /// CRC-32 of the critical game state.
    pub state_hash: u32,
    pub p1_health: u16,
    pub p2_health: u16,
}

/// The wire form of a desync check (16 bytes, little-endian fields).
pub open spec fn sync_packet_bytes(p: SyncPacket) -> Seq<u8> {
    le32_bytes(SYNC_MAGIC) + le32_bytes(p.frame) + le32_bytes(p.state_hash) + le16_bytes(p.p1_health)
        + le16_bytes(p.p2_health)
}

/// What reading bytes as a desync check yields: nothing when fewer than 16
/// bytes or a wrong magic; bytes past the 16th are ignored.
pub open spec fn parse_sync_packet(b: Seq<u8>) -> Option<SyncPacket> {
    if b.len() < 16 {
        None
    } else if le32(b[0], b[1], b[2], b[3]) != SYNC_MAGIC {
        None
    } else {
        Some(
            SyncPacket {
                frame: le32(b[4], b[5], b[6], b[7]),
                state_hash: le32(b[8], b[9], b[10], b[11]),
                p1_health: le16(b[12], b[13]),
                p2_health: le16(b[14], b[15]),
            },
        )
    }
}

impl SyncPacket {
    /// Encode for the wire (16 bytes).
    pub fn serialize(&self) -> (buf: [u8; 16])
        ensures
            buf@ == sync_packet_bytes(*self),
    {
        let m = u32_to_le(SYNC_MAGIC);
        let f = u32_to_le(self.frame);
        let h = u32_to_le(self.state_hash);
        let a = u16_to_le(self.p1_health);
        let b = u16_to_le(self.p2_health);
        let buf = [
            m[0], m[1], m[2], m[3], f[0], f[1], f[2], f[3], h[0], h[1], h[2], h[3], a[0], a[1], b[0],
            b[1],
        ];
        assert(buf@ =~= sync_packet_bytes(*self));
        buf
    }

    /// Decode a desync check; `None` when too short or the magic is wrong.
    pub fn deserialize(buf: &[u8]) -> (r: Option<SyncPacket>)
        ensures
            r == parse_sync_packet(buf@),
    {
        if buf.len() < SYNC_PACKET_SIZE {
            return None;
        }
        let magic = u32_from_le(buf[0], buf[1], buf[2], buf[3]);
        if magic != SYNC_MAGIC {
            return None;
        }
        Some(
            SyncPacket {
                frame: u32_from_le(buf[4], buf[5], buf[6], buf[7]),
                state_hash: u32_from_le(buf[8], buf[9], buf[10], buf[11]),
                p1_health: u16_from_le(buf[12], buf[13]),
                p2_health: u16_from_le(buf[14], buf[15]),
            },
        )
    }
}

/// Reading back an encoded desync check gives the same packet.
pub proof fn lemma_sync_packet_roundtrip(p: SyncPacket)
    ensures
        parse_sync_packet(sync_packet_bytes(p)) == Some(p),
{
    lemma_le32_roundtrip(SYNC_MAGIC);
    lemma_le32_roundtrip(p.frame);
    lemma_le32_roundtrip(p.state_hash);
    lemma_le16_roundtrip(p.p1_health);
    lemma_le16_roundtrip(p.p2_health);
}

/// A latency probe or its reply: magic, then a microsecond timestamp.
pub open spec fn probe_bytes(magic: u32, timestamp_us: u64) -> Seq<u8> {
    le32_bytes(magic) + le64_bytes(timestamp_us)
}

/// The latency probe sent with the current time in microseconds.
pub fn ping_packet(now_us: u64) -> (buf: [u8; 12])
    ensures
        buf@ == probe_bytes(PING_MAGIC, now_us),
{
    let m = u32_to_le(PING_MAGIC);
    let t = u64_to_le(now_us);
    let buf = [m[0], m[1], m[2], m[3], t[0], t[1], t[2], t[3], t[4], t[5], t[6], t[7]];
    assert(buf@ =~= probe_bytes(PING_MAGIC, now_us));
    buf
}

/// What a received datagram is, and what answering it takes.
#[derive(Clone, Copy, Debug)]
pub enum Datagram {
    /// A well-formed input packet.
    Input(InputPacket),
    /// A well-formed desync check.
    Sync(SyncPacket),
    /// A latency probe; the reply to send back to its sender.
    Ping([u8; 12]),
    /// A reply to one of our probes, carrying the timestamp we sent.
    Pong(u64),
    /// Anything else: dropped.
    Ignored,
}

/// How the receive task sorts a datagram, by its length first and then by
/// its magic number. A probe is answered with the same timestamp under the
/// reply magic.
pub open spec fn classify(b: Seq<u8>) -> Datagram {
    if b.len() == 20 {
        match parse_input_packet(b) {
            Some(p) => Datagram::Input(p),
            None => Datagram::Ignored,
        }
    } else if b.len() == 16 {
        match parse_sync_packet(b) {
            Some(p) => Datagram::Sync(p),
            None => Datagram::Ignored,
        }
    } else if b.len() == 12 {
        let magic = le32(b[0], b[1], b[2], b[3]);
        if magic == PING_MAGIC {
            Datagram::Ping(arbitrary())
        } else if magic == PONG_MAGIC {
            Datagram::Pong(le64(b.subrange(4, 12)))
        } else {
            Datagram::Ignored
        }
    } else {
        Datagram::Ignored
    }
}

/// A received probe's reply: the reply magic followed by the probe's timestamp bytes.
pub open spec fn pong_reply(b: Seq<u8>) -> Seq<u8> {
    le32_bytes(PONG_MAGIC) + b.subrange(4, 12)
}

/// Sort a received datagram (see [`classify`]).
pub fn classify_datagram(buf: &[u8]) -> (d: Datagram)
    ensures
        match d {
            Datagram::Ping(reply) => buf@.len() == 12 && le32(buf@[0], buf@[1], buf@[2], buf@[3])
                == PING_MAGIC && reply@ == pong_reply(buf@),
            _ => d == classify(buf@),
        },
        classify(buf@) is Ping <==> d is Ping,
{
    let n = buf.len();
    if n == PACKET_SIZE {
        let arr = [
            buf[0], buf[1], buf[2], buf[3], buf[4], buf[5], buf[6], buf[7], buf[8], buf[9], buf[10],
            buf[11], buf[12], buf[13], buf[14], buf[15], buf[16], buf[17], buf[18], buf[19],
        ];
        assert(arr@ =~= buf@);
        match InputPacket::deserialize(&arr) {
            Some(p) => Datagram::Input(p),
            None => Datagram::Ignored,
        }
    } else if n == SYNC_PACKET_SIZE {
        match SyncPacket::deserialize(buf) {
            Some(p) => Datagram::Sync(p),
            None => Datagram::Ignored,
        }
    } else if n == PING_PACKET_SIZE {
        let magic = u32_from_le(buf[0], buf[1], buf[2], buf[3]);
        if magic == PING_MAGIC {
            let m = u32_to_le(PONG_MAGIC);
            let reply = [
                m[0], m[1], m[2], m[3], buf[4], buf[5], buf[6], buf[7], buf[8], buf[9], buf[10],
                buf[11],
            ];
            assert(reply@ =~= pong_reply(buf@));
            Datagram::Ping(reply)
        } else if magic == PONG_MAGIC {
            let ts = u64_from_le(buf, 4);
            Datagram::Pong(ts)
        } else {
            Datagram::Ignored
        }
    } else {
        Datagram::Ignored
    }
}


/// A latency probe is recognised as one, and the reply built for it is read
/// back as a reply carrying the probe's own timestamp.
pub proof fn lemma_probe_round_trip(t: u64)
    ensures
        classify(probe_bytes(PING_MAGIC, t)) is Ping,
        classify(pong_reply(probe_bytes(PING_MAGIC, t))) == Datagram::Pong(t),
{
    let b = probe_bytes(PING_MAGIC, t);
    let r = pong_reply(b);
    lemma_le32_roundtrip(PING_MAGIC);
    lemma_le32_roundtrip(PONG_MAGIC);
    lemma_le64_roundtrip(t);
    assert(b.len() == 12);
    assert(b[0] == le32_bytes(PING_MAGIC)[0] && b[1] == le32_bytes(PING_MAGIC)[1]);
    assert(b[2] == le32_bytes(PING_MAGIC)[2] && b[3] == le32_bytes(PING_MAGIC)[3]);
    assert(r.len() == 12);
    assert(r[0] == le32_bytes(PONG_MAGIC)[0] && r[1] == le32_bytes(PONG_MAGIC)[1]);
    assert(r[2] == le32_bytes(PONG_MAGIC)[2] && r[3] == le32_bytes(PONG_MAGIC)[3]);
    assert(r.subrange(4, 12) =~= le64_bytes(t));
}

} // verus!

verus! {

/// The entries of `m` at frames not below `cutoff`.
pub open spec fn frames_from<V>(m: Map<u32, V>, cutoff: u32) -> Map<u32, V> {
    m.restrict(Set::new(|k: u32| k >= cutoff))
}

/// Drop every entry of `m` below frame `cutoff`.
pub(crate) fn drop_frames_before<V>(m: &mut HashMap<u32, V>, cutoff: u32)
    ensures
        final(m)@ == frames_from(old(m)@, cutoff),
{
    broadcast use vstd::std_specs::hash::group_hash_axioms;

    let mut stale: Vec<u32> = Vec::new();
    for k in it: m.keys()
        invariant
            forall|i: int| 0 <= i < stale.len() ==> #[trigger] stale@[i] < cutoff && m@.contains_key(stale@[i]),
            forall|j: int| 0 <= j < it.index() && *it.seq()[j] < cutoff ==> stale@.contains(*it.seq()[j]),
            forall|k: u32| m@.contains_key(k) ==> exists|j: int| 0 <= j < it.seq().len() && *it.seq()[j] == k,
    {
        let ghost at = it.index();
        assert(*k == *it.seq()[at]);
        let ghost old_stale = stale@;
        if *k < cutoff {
            stale.push(*k);
            assert(stale@[stale@.len() - 1] == *k);
            assert forall|x: u32| old_stale.contains(x) implies stale@.contains(x) by {
                let w = choose|w: int| 0 <= w < old_stale.len() && old_stale[w] == x;
                assert(stale@[w] == x);
            }
        }
    }
    let ghost before = m@;
    assert(forall|k: u32| before.contains_key(k) && k < cutoff ==> stale@.contains(k));
    let n = stale.len();
    for i in 0..n
        invariant
            n == stale.len(),
            forall|j: int| 0 <= j < stale.len() ==> #[trigger] stale@[j] < cutoff,
            forall|k: u32| #![trigger m@.contains_key(k)] m@.contains_key(k) <==> (before.contains_key(k)
                && forall|j: int| 0 <= j < i ==> stale@[j] != k),
            forall|k: u32| m@.contains_key(k) ==> m@[k] == before[k],
    {
        m.remove(&stale[i]);
    }
    assert forall|k: u32| #![trigger before.contains_key(k)] m@.contains_key(k) <==> (before.contains_key(k) && k >= cutoff) by {
        if before.contains_key(k) && k < cutoff {
            let j = choose|j: int| 0 <= j < stale.len() && stale@[j] == k;
            assert(stale@[j] == k);
        }
    }
    assert(m@ =~= frames_from(before, cutoff));
}

/// The frame inputs of both players, indexed by frame number, kept for
/// prediction and rollback.
pub struct InputBuffer {
    /// Local player's confirmed inputs by frame.
    pub local: HashMap<u32, FrameInput>,
    /// Remote player's confirmed inputs by frame.
    pub remote: HashMap<u32, FrameInput>,
    /// Predicted inputs for frames whose remote input has not arrived yet.
    pub predicted: HashMap<u32, FrameInput>,
    /// The latest frame with confirmed remote input.
    pub latest_remote_frame: u32,
    /// The latest frame with local input.
    pub latest_local_frame: u32,
    /// How many frames of history are kept behind the newest local frame.
    pub max_history: u32,
}

/// The contents of an [`InputBuffer`].
pub struct BufferState {
    pub local: Map<u32, FrameInput>,
    pub remote: Map<u32, FrameInput>,
    pub predicted: Map<u32, FrameInput>,
    pub latest_remote_frame: u32,
    pub latest_local_frame: u32,
    pub max_history: u32,
}

impl View for InputBuffer {
    type V = BufferState;

    open spec fn view(&self) -> BufferState {
        BufferState {
            local: self.local@,
            remote: self.remote@,
            predicted: self.predicted@,
            latest_remote_frame: self.latest_remote_frame,
            latest_local_frame: self.latest_local_frame,
            max_history: self.max_history,
        }
    }
}

/// The history that survives once the newest frame is `current`: every
/// table loses its frames older than `current - max_history` (nothing is
/// dropped while `current <= max_history`).
pub open spec fn trimmed(s: BufferState, current: u32) -> BufferState {
    if current <= s.max_history {
        s
    } else {
        let cutoff = (current - s.max_history) as u32;
        BufferState {
            local: frames_from(s.local, cutoff),
            remote: frames_from(s.remote, cutoff),
            predicted: frames_from(s.predicted, cutoff),
            ..s
        }
    }
}

/// The buffer after recording local input for `frame`.
pub open spec fn after_add_local(s: BufferState, frame: u32, input: FrameInput) -> BufferState {
    trimmed(
        BufferState {
            local: s.local.insert(frame, input),
            latest_local_frame: if frame > s.latest_local_frame { frame } else { s.latest_local_frame },
            ..s
        },
        frame,
    )
}

/// Whether confirmed remote input for `frame` contradicts the prediction made for it.
pub open spec fn remote_mismatch(s: BufferState, frame: u32, input: FrameInput) -> bool {
    s.predicted.contains_key(frame) && s.predicted[frame] != input
}

/// The buffer after confirmed remote input for `frame` arrives: it is
/// recorded and replaces any prediction for that frame.
pub open spec fn after_add_remote(s: BufferState, frame: u32, input: FrameInput) -> BufferState {
    BufferState {
        remote: s.remote.insert(frame, input),
        predicted: s.predicted.remove(frame),
        latest_remote_frame: if frame > s.latest_remote_frame { frame } else { s.latest_remote_frame },
        ..s
    }
}

/// The prediction for a frame not yet confirmed: the remote input of the
/// latest confirmed frame, or neutral input when that one is gone.
pub open spec fn prediction(s: BufferState) -> FrameInput {
    if s.remote.contains_key(s.latest_remote_frame) {
        s.remote[s.latest_remote_frame]
    } else {
        neutral_input()
    }
}

/// The remote input used for `frame`, and whether it is a prediction: the
/// confirmed input if any, else an earlier prediction for that frame, else
/// a fresh one.
pub open spec fn remote_lookup(s: BufferState, frame: u32) -> (FrameInput, bool) {
    if s.remote.contains_key(frame) {
        (s.remote[frame], false)
    } else if s.predicted.contains_key(frame) {
        (s.predicted[frame], true)
    } else {
        (prediction(s), true)
    }
}

/// The buffer after looking up `frame`: a fresh prediction is remembered.
pub open spec fn after_lookup(s: BufferState, frame: u32) -> BufferState {
    if s.remote.contains_key(frame) || s.predicted.contains_key(frame) {
        s
    } else {
        BufferState { predicted: s.predicted.insert(frame, prediction(s)), ..s }
    }
}

/// The local input recorded for `frame`, or neutral input when there is none.
pub open spec fn local_at(s: BufferState, frame: u32) -> FrameInput {
    if s.local.contains_key(frame) {
        s.local[frame]
    } else {
        neutral_input()
    }
}

/// The buffer after looking up every frame of `frames`, in any order: each
/// frame with neither confirmed input nor a prediction gets the prediction
/// the buffer makes now.
pub open spec fn after_lookups(s: BufferState, frames: Set<u32>) -> BufferState {
    BufferState {
        predicted: Map::new(
            |k: u32| s.predicted.contains_key(k) || (frames.contains(k) && !s.remote.contains_key(k)),
            |k: u32| if s.predicted.contains_key(k) { s.predicted[k] } else { prediction(s) },
        ),
        ..s
    }
}

impl InputBuffer {
    /// An empty buffer keeping `max_history` frames of history.
    pub fn new(max_history: u32) -> (b: Self)
        ensures
            b@.local == Map::<u32, FrameInput>::empty(),
            b@.remote == Map::<u32, FrameInput>::empty(),
            b@.predicted == Map::<u32, FrameInput>::empty(),
            b@.latest_remote_frame == 0,
            b@.latest_local_frame == 0,
            b@.max_history == max_history,
    {
        InputBuffer {
            local: HashMap::new(),
            remote: HashMap::new(),
            predicted: HashMap::new(),
            latest_remote_frame: 0,
            latest_local_frame: 0,
            max_history,
        }
    }

    /// Record local input for a frame, then drop history older than
    /// `max_history` frames behind it.
    pub fn add_local(&mut self, frame: u32, input: FrameInput)
        ensures
            final(self)@ == after_add_local(old(self)@, frame, input),
    {
        broadcast use vstd::std_specs::hash::group_hash_axioms;

        self.local.insert(frame, input);
        if frame > self.latest_local_frame {
            self.latest_local_frame = frame;
        }
        self.gc_old_frames(frame);
    }

    /// Record confirmed remote input. Returns whether it contradicts the
    /// prediction made for that frame, i.e. whether a rollback is needed.
    pub fn add_remote(&mut self, frame: u32, input: FrameInput) -> (mismatch: bool)
        ensures
            mismatch == remote_mismatch(old(self)@, frame, input),
            final(self)@ == after_add_remote(old(self)@, frame, input),
    {
        broadcast use vstd::std_specs::hash::group_hash_axioms;

        let mismatch = match self.predicted.get(&frame) {
            Some(p) => p.buttons != input.buttons || p.stick_x != input.stick_x || p.stick_y
                != input.stick_y || p.cstick_x != input.cstick_x || p.cstick_y != input.cstick_y
                || p.trigger_l != input.trigger_l || p.trigger_r != input.trigger_r,
            None => false,
        };
        self.remote.insert(frame, input);
        self.predicted.remove(&frame);
        if frame > self.latest_remote_frame {
            self.latest_remote_frame = frame;
        }
        mismatch
    }

    /// The remote input for a frame and whether it is predicted. A fresh
    /// prediction repeats the latest confirmed input and is remembered.
    pub fn get_remote(&mut self, frame: u32) -> (r: (FrameInput, bool))
        ensures
            r == remote_lookup(old(self)@, frame),
            final(self)@ == after_lookup(old(self)@, frame),
    {
        broadcast use vstd::std_specs::hash::group_hash_axioms;

        if let Some(input) = self.remote.get(&frame) {
            return (*input, false);
        }
        if let Some(input) = self.predicted.get(&frame) {
            return (*input, true);
        }
        let predicted = match self.remote.get(&self.latest_remote_frame) {
            Some(input) => *input,
            None => FrameInput::default(),
        };
        self.predicted.insert(frame, predicted);
        (predicted, true)
    }

    /// The local input recorded for a frame (see [`local_at`]).
    pub fn local_input(&self, frame: u32) -> (i: FrameInput)
        ensures
            i == local_at(self@, frame),
    {
        broadcast use vstd::std_specs::hash::group_hash_axioms;

        match self.local.get(&frame) {
            Some(input) => *input,
            None => FrameInput::default(),
        }
    }

    /// Drop every table's frames older than `max_history` behind `current_frame`.
    fn gc_old_frames(&mut self, current_frame: u32)
        ensures
            final(self)@ == trimmed(old(self)@, current_frame),
    {
        if current_frame <= self.max_history {
            return;
        }
        let cutoff = current_frame - self.max_history;
        drop_frames_before(&mut self.local, cutoff);
        drop_frames_before(&mut self.remote, cutoff);
        drop_frames_before(&mut self.predicted, cutoff);
    }
}

/// Once confirmed input for a frame is recorded, looking that frame up
/// gives exactly that input, marked as confirmed.
pub proof fn lemma_confirmed_input_is_read_back(s: BufferState, frame: u32, input: FrameInput)
    ensures
        remote_lookup(after_add_remote(s, frame, input), frame) == (input, false),
{
}

/// Looking a frame up twice gives the same answer and leaves the buffer as
/// the first lookup left it: a prediction, once made, stays fixed until the
/// confirmed input replaces it.
pub proof fn lemma_prediction_is_stable(s: BufferState, frame: u32)
    ensures
        remote_lookup(after_lookup(s, frame), frame) == remote_lookup(s, frame),
        after_lookup(after_lookup(s, frame), frame) == after_lookup(s, frame),
{
}

/// When the input used for a frame was a prediction, the confirmed input
/// that follows is reported as a mismatch exactly when it differs from
/// what was predicted.
pub proof fn lemma_wrong_prediction_is_reported(s: BufferState, frame: u32, input: FrameInput)
    requires
        !s.remote.contains_key(frame),
    ensures
        remote_mismatch(after_lookup(s, frame), frame, input) <==> remote_lookup(s, frame).0 != input,
{
}

/// Looking up nothing leaves the buffer as it is.
pub proof fn lemma_no_lookups(s: BufferState)
    ensures
        after_lookups(s, Set::empty()) == s,
{
    assert(after_lookups(s, Set::empty()).predicted =~= s.predicted);
}

/// Lookups of different frames do not disturb one another: after any set
/// of lookups a frame reads as it did before them, and looking it up then
/// is one more lookup of the set.
pub proof fn lemma_lookups_commute(s: BufferState, frames: Set<u32>, frame: u32)
    ensures
        remote_lookup(after_lookups(s, frames), frame) == remote_lookup(s, frame),
        after_lookup(after_lookups(s, frames), frame) == after_lookups(s, frames.insert(frame)),
{
    assert(after_lookup(after_lookups(s, frames), frame).predicted =~= after_lookups(s, frames.insert(frame)).predicted);
}

/// Whether a received desync check disagrees with our own hash of its
/// frame; a frame we have no hash for never disagrees.
pub open spec fn sync_disagrees(p: SyncPacket, local_hashes: Map<u32, u32>) -> bool {
    local_hashes.contains_key(p.frame) && local_hashes[p.frame] != p.state_hash
}

/// Where a netplay session stands.
#[derive(Clone, Copy, Debug, PartialEq, Eq, Structural)]
pub enum SessionState {
    Disconnected,
    Connecting,
    Connected,
    Playing,
}

/// The name of a session state, as the status report shows it.
pub open spec fn state_name(s: SessionState) -> Seq<char> {
    match s {
        SessionState::Disconnected => "Disconnected"@,
        SessionState::Connecting => "Connecting"@,
        SessionState::Connected => "Connected"@,
        SessionState::Playing => "Playing"@,
    }
}

/// Folding received input packets into the buffer, in arrival order:
/// controller-test packets (frame at or above the test floor) are skipped,
/// every other one is recorded as confirmed remote input, and the frames
/// whose confirmation contradicted a prediction are collected.
pub open spec fn receive_all(s: BufferState, packets: Seq<InputPacket>) -> (BufferState, Seq<u32>)
    decreases packets.len(),
{
    if packets.len() == 0 {
        (s, Seq::empty())
    } else {
        let (s1, frames) = receive_all(s, packets.drop_last());
        let p = packets.last();
        if p.frame >= TEST_FRAME_FLOOR {
            (s1, frames)
        } else if remote_mismatch(s1, p.frame, p.input) {
            (after_add_remote(s1, p.frame, p.input), frames.push(p.frame))
        } else {
            (after_add_remote(s1, p.frame, p.input), frames)
        }
    }
}

/// Whether a sequence of frame numbers is in ascending order.
pub open spec fn ascending(s: Seq<u32>) -> bool {
    forall|i: int, j: int| 0 <= i < j < s.len() ==> s[i] <= s[j]
}

/// The order on frame numbers.
pub open spec fn frame_leq(x: u32, y: u32) -> bool {
    x <= y
}

/// Frame numbers in ascending order.
pub open spec fn sorted_frames(s: Seq<u32>) -> Seq<u32> {
    s.sort_by(|x: u32, y: u32| frame_leq(x, y))
}

/// An ascending sequence holding the same frames as `s` is `s` sorted.
pub proof fn lemma_ascending_is_sorted(a: Seq<u32>, s: Seq<u32>)
    requires
        ascending(a),
        a.to_multiset() == s.to_multiset(),
    ensures
        a == sorted_frames(s),
{
    let leq = |x: u32, y: u32| frame_leq(x, y);
    assert(vstd::relations::total_ordering(leq));
    s.lemma_sort_by_ensures(leq);
    assert(vstd::relations::sorted_by(a, leq));
    vstd::seq_lib::lemma_sorted_unique(a, sorted_frames(s), leq);
}

/// The state a netplay session keeps besides its socket and channels.
pub struct NetplaySession {
    pub state: SessionState,
    /// 0 for player 1, 1 for player 2.
    pub local_player_id: u8,
    pub local_port: u16,
    /// The peer's address, once known.
    pub peer_addr: Option<String>,
    pub input_buffer: InputBuffer,
    /// Frames of intentional input delay.
    pub input_delay: u32,
    /// Most frames a rollback may rewind.
    pub max_rollback: u32,
    pub current_frame: u32,
    /// The first desync seen: frame, local hash, remote hash.
    pub desync_info: Option<(u32, u32, u32)>,
    /// When the last latency probe was sent, in microseconds.
    pub last_ping_sent_us: u64,
}

/// Insert `x` into an ascending vector, keeping it ascending.
fn insert_sorted(v: &mut Vec<u32>, x: u32)
    requires
        ascending(old(v)@),
    ensures
        ascending(final(v)@),
        final(v)@.to_multiset() == old(v)@.to_multiset().insert(x),
{
    broadcast use vstd::seq_lib::to_multiset_insert;

    let mut pos: usize = 0;
    while pos < v.len() && v[pos] <= x
        invariant
            pos <= v.len(),
            ascending(v@),
            forall|i: int| 0 <= i < pos ==> v@[i] <= x,
        decreases v.len() - pos,
    {
        pos += 1;
    }
    let ghost before = v@;
    v.insert(pos, x);
    assert(v@ == before.insert(pos as int, x));
    assert forall|i: int, j: int| 0 <= i < j < v@.len() implies v@[i] <= v@[j] by {
        if j < pos {
        } else if j == pos {
        } else if i < pos {
            assert(v@[j] == before[j - 1]);
            assert(before[j - 1] >= x);
        } else if i == pos {
            assert(before[j - 1] >= x);
        } else {
        }
    }
}

impl NetplaySession {
    /// A fresh, unconnected session; the input buffer keeps 30 frames more
    /// than the rollback window.
    pub fn new(player_id: u8, input_delay: u32, max_rollback: u32) -> (s: Self)
        requires
            max_rollback + 30 <= u32::MAX,
        ensures
            s.state == SessionState::Disconnected,
            s.local_player_id == player_id,
            s.local_port == 0,
            s.peer_addr is None,
            s.input_buffer@.local == Map::<u32, FrameInput>::empty(),
            s.input_buffer@.remote == Map::<u32, FrameInput>::empty(),
            s.input_buffer@.predicted == Map::<u32, FrameInput>::empty(),
            s.input_buffer@.latest_remote_frame == 0,
            s.input_buffer@.latest_local_frame == 0,
            s.input_buffer@.max_history == max_rollback + 30,
            s.input_delay == input_delay,
            s.max_rollback == max_rollback,
            s.current_frame == 0,
            s.desync_info is None,
            s.last_ping_sent_us == 0,
    {
        NetplaySession {
            state: SessionState::Disconnected,
            local_player_id: player_id,
            local_port: 0,
            peer_addr: None,
            input_buffer: InputBuffer::new(max_rollback + 30),
            input_delay,
            max_rollback,
            current_frame: 0,
            desync_info: None,
            last_ping_sent_us: 0,
        }
    }

    /// Record that the socket is bound to `port`; the session starts connecting.
    pub fn mark_bound(&mut self, port: u16)
        ensures
            final(self).local_port == port,
            final(self).state == SessionState::Connecting,
            final(self).peer_addr == old(self).peer_addr,
            final(self).input_buffer@ == old(self).input_buffer@,
            final(self).current_frame == old(self).current_frame,
    {
        self.local_port = port;
        self.state = SessionState::Connecting;
    }

    /// Set the peer to exchange inputs with; the session is then connected.
    pub fn set_peer(&mut self, addr: String)
        ensures
            final(self).peer_addr == Some(addr),
            final(self).state == SessionState::Connected,
            final(self).local_port == old(self).local_port,
            final(self).input_buffer@ == old(self).input_buffer@,
            final(self).current_frame == old(self).current_frame,
    {
        self.peer_addr = Some(addr);
        self.state = SessionState::Connected;
    }

    /// Record local input for the current frame and give the packet to send.
    pub fn send_input(&mut self, input: FrameInput) -> (p: InputPacket)
        ensures
            p.frame == old(self).current_frame,
            p.player_id == old(self).local_player_id,
            p.input == input,
            p.checksum == 0,
            final(self).input_buffer@ == after_add_local(old(self).input_buffer@, old(self).current_frame, input),
            final(self).current_frame == old(self).current_frame,
            final(self).local_player_id == old(self).local_player_id,
            final(self).state == old(self).state,
    {
        let frame = self.current_frame;
        self.input_buffer.add_local(frame, input);
        InputPacket { frame, player_id: self.local_player_id, input, checksum: 0 }
    }

    /// Fold received input packets into the buffer (see [`receive_all`]);
    /// returns the frames needing a rollback in ascending order.
    pub fn process_received(&mut self, packets: &Vec<InputPacket>) -> (frames: Vec<u32>)
        ensures
            final(self).input_buffer@ == receive_all(old(self).input_buffer@, packets@).0,
            frames@ == sorted_frames(receive_all(old(self).input_buffer@, packets@).1),
            *final(self) == (NetplaySession { input_buffer: final(self).input_buffer, ..*old(self) }),
    {
        broadcast use vstd::seq_lib::to_multiset_build;

        let mut rollback_frames: Vec<u32> = Vec::new();
        let ghost mut found: Seq<u32> = Seq::empty();
        let ghost start = self.input_buffer@;
        let n = packets.len();
        for i in 0..n
            invariant
                n == packets.len(),
                receive_all(start, packets@.subrange(0, i as int)) == (self.input_buffer@, found),
                rollback_frames@.to_multiset() == found.to_multiset(),
                ascending(rollback_frames@),
                *self == (NetplaySession { input_buffer: self.input_buffer, ..*old(self) }),
        {
            let packet = packets[i];
            assert(packets@.subrange(0, i + 1).drop_last() =~= packets@.subrange(0, i as int));
            if packet.frame < TEST_FRAME_FLOOR {
                let mismatch = self.input_buffer.add_remote(packet.frame, packet.input);
                if mismatch {
                    insert_sorted(&mut rollback_frames, packet.frame);
                    proof {
                        vstd::seq_lib::to_multiset_build(found, packet.frame);
                        found = found.push(packet.frame);
                    }
                }
            }
        }
        assert(packets@.subrange(0, n as int) =~= packets@);
        proof {
            lemma_ascending_is_sorted(rollback_frames@, found);
        }
        rollback_frames
    }

    /// Move on to the next frame.
    pub fn advance_frame(&mut self)
        requires
            old(self).current_frame < u32::MAX,
        ensures
            *final(self) == (NetplaySession { current_frame: (old(self).current_frame + 1) as u32, ..*old(self) }),
    {
        self.current_frame += 1;
    }

    /// The remote input for the current frame, confirmed or predicted.
    pub fn get_remote_input(&mut self) -> (r: (FrameInput, bool))
        ensures
            r == remote_lookup(old(self).input_buffer@, old(self).current_frame),
            final(self).input_buffer@ == after_lookup(old(self).input_buffer@, old(self).current_frame),
            *final(self) == (NetplaySession { input_buffer: final(self).input_buffer, ..*old(self) }),
    {
        let frame = self.current_frame;
        self.input_buffer.get_remote(frame)
    }

    /// How many frames ahead of the remote player we are (never negative).
    pub fn frames_ahead(&self) -> (n: u32)
        ensures
            n == if self.current_frame > self.input_buffer.latest_remote_frame {
                self.current_frame - self.input_buffer.latest_remote_frame
            } else {
                0
            },
    {
        self.current_frame.saturating_sub(self.input_buffer.latest_remote_frame)
    }

    /// Whether to wait for the remote player: we are further ahead than a
    /// rollback could repair.
    pub fn should_stall(&self) -> (b: bool)
        ensures
            b == (self.current_frame > self.input_buffer.latest_remote_frame + self.max_rollback),
    {
        self.frames_ahead() > self.max_rollback
    }

    /// Compare one received desync check with our own hash of that frame.
    /// A disagreement is recorded and returned as (frame, ours, theirs); a
    /// frame we have no hash for, or an agreeing one, gives `None`.
    pub fn check_sync_packet(&mut self, sync: SyncPacket, local_hashes: &HashMap<u32, u32>) -> (r: Option<(u32, u32, u32)>)
        ensures
            r == (if local_hashes@.contains_key(sync.frame) && local_hashes@[sync.frame] != sync.state_hash {
                Some((sync.frame, local_hashes@[sync.frame], sync.state_hash))
            } else {
                None
            }),
            r is Some ==> final(self).desync_info == r,
            r is None ==> final(self).desync_info == old(self).desync_info,
            final(self).input_buffer@ == old(self).input_buffer@,
            final(self).current_frame == old(self).current_frame,
    {
        broadcast use vstd::std_specs::hash::group_hash_axioms;

        if let Some(local_hash) = local_hashes.get(&sync.frame) {
            if *local_hash != sync.state_hash {
                self.desync_info = Some((sync.frame, *local_hash, sync.state_hash));
                return Some((sync.frame, *local_hash, sync.state_hash));
            }
        }
        None
    }

    /// Go through received desync checks in arrival order, stopping at the
    /// first that disagrees with our hash of its frame (see
    /// [`sync_disagrees`]): that one is recorded and returned as (frame,
    /// ours, theirs), with the number of checks consumed up to and including
    /// it. Without one, every check is consumed and nothing changes.
    pub fn process_sync_packets(&mut self, packets: &Vec<SyncPacket>, local_hashes: &HashMap<u32, u32>) -> (r: (
        Option<(u32, u32, u32)>,
        usize,
    ))
        ensures
            match r.0 {
                Some(d) => {
                    &&& 1 <= r.1 <= packets.len()
                    &&& sync_disagrees(packets@[r.1 - 1], local_hashes@)
                    &&& forall|j: int| 0 <= j < r.1 - 1 ==> !sync_disagrees(#[trigger] packets@[j], local_hashes@)
                    &&& d == (packets@[r.1 - 1].frame, local_hashes@[packets@[r.1 - 1].frame], packets@[r.1 - 1].state_hash)
                    &&& *final(self) == (NetplaySession { desync_info: Some(d), ..*old(self) })
                },
                None => {
                    &&& r.1 == packets.len()
                    &&& forall|j: int| 0 <= j < packets.len() ==> !sync_disagrees(#[trigger] packets@[j], local_hashes@)
                    &&& *final(self) == *old(self)
                },
            },
    {
        broadcast use vstd::std_specs::hash::group_hash_axioms;

        let n = packets.len();
        for i in 0..n
            invariant
                n == packets.len(),
                forall|j: int| 0 <= j < i ==> !sync_disagrees(#[trigger] packets@[j], local_hashes@),
                *self == *old(self),
        {
            let sync = packets[i];
            if let Some(local_hash) = local_hashes.get(&sync.frame) {
                if *local_hash != sync.state_hash {
                    let d = (sync.frame, *local_hash, sync.state_hash);
                    self.desync_info = Some(d);
                    return (Some(d), i + 1);
                }
            }
        }
        (None, n)
    }

    /// Note the time of a latency probe and give the probe to send.
    pub fn send_ping(&mut self, now_us: u64) -> (buf: [u8; 12])
        ensures
            buf@ == probe_bytes(PING_MAGIC, now_us),
            final(self).last_ping_sent_us == now_us,
            final(self).input_buffer@ == old(self).input_buffer@,
            final(self).current_frame == old(self).current_frame,
    {
        self.last_ping_sent_us = now_us;
        ping_packet(now_us)
    }
}

/// The status report of the netplay session.
pub struct NetplayStatusInfo {
    pub state: String,
    pub local_port: u16,
    pub current_frame: u32,
    pub latest_remote_frame: u32,
    pub frames_ahead: u32,
    pub peer_connected: bool,
}

/// The name of a session state.
pub fn session_state_name(s: SessionState) -> (name: String)
    ensures
        name@ == state_name(s),
{
    match s {
        SessionState::Disconnected => String::from_str("Disconnected"),
        SessionState::Connecting => String::from_str("Connecting"),
        SessionState::Connected => String::from_str("Connected"),
        SessionState::Playing => String::from_str("Playing"),
    }
}

impl NetplayStatusInfo {
    /// The status of a session, or the report "None" with zeros when there is none.
    pub fn of(session: Option<&NetplaySession>) -> (info: NetplayStatusInfo)
        ensures
            match session {
                Some(s) => {
                    &&& info.state@ == state_name(s.state)
                    &&& info.local_port == s.local_port
                    &&& info.current_frame == s.current_frame
                    &&& info.latest_remote_frame == s.input_buffer.latest_remote_frame
                    &&& info.frames_ahead == (if s.current_frame > s.input_buffer.latest_remote_frame {
                        s.current_frame - s.input_buffer.latest_remote_frame
                    } else {
                        0
                    })
                    &&& info.peer_connected == s.peer_addr is Some
                },
                None => {
                    &&& info.state@ == "None"@
                    &&& info.local_port == 0
                    &&& info.current_frame == 0
                    &&& info.latest_remote_frame == 0
                    &&& info.frames_ahead == 0
                    &&& !info.peer_connected
                },
            },
    {
        match session {
            Some(s) => NetplayStatusInfo {
                state: session_state_name(s.state),
                local_port: s.local_port,
                current_frame: s.current_frame,
                latest_remote_frame: s.input_buffer.latest_remote_frame,
                frames_ahead: s.frames_ahead(),
                peer_connected: s.peer_addr.is_some(),
            },
            None => NetplayStatusInfo {
                state: String::from_str("None"),
                local_port: 0,
                current_frame: 0,
                latest_remote_frame: 0,
                frames_ahead: 0,
                peer_connected: false,
            },
        }
    }
}

/// What the controller test last saw from the remote player.
#[derive(Clone, Copy, Debug)]
pub struct RemoteTestInput {
    pub got_remote: bool,
    pub buttons: u16,
    pub stick_x: i8,
    pub stick_y: i8,
}

/// During the controller test, the remote player's state is the last packet
/// received, whatever its frame; with none, nothing pressed.
pub fn latest_test_input(packets: &Vec<InputPacket>) -> (r: RemoteTestInput)
    ensures
        packets@.len() == 0 ==> r == (RemoteTestInput { got_remote: false, buttons: 0, stick_x: 0, stick_y: 0 }),
        packets@.len() > 0 ==> r == (RemoteTestInput {
            got_remote: true,
            buttons: packets@.last().input.buttons,
            stick_x: packets@.last().input.stick_x,
            stick_y: packets@.last().input.stick_y,
        }),
{
    let mut r = RemoteTestInput { got_remote: false, buttons: 0, stick_x: 0, stick_y: 0 };
    for i in 0..packets.len()
        invariant
            i == 0 ==> r == (RemoteTestInput { got_remote: false, buttons: 0, stick_x: 0, stick_y: 0 }),
            i > 0 ==> r == (RemoteTestInput {
                got_remote: true,
                buttons: packets@[i - 1].input.buttons,
                stick_x: packets@[i - 1].input.stick_x,
                stick_y: packets@[i - 1].input.stick_y,
            }),
    {
        let p = packets[i];
        r = RemoteTestInput { got_remote: true, buttons: p.input.buttons, stick_x: p.input.stick_x, stick_y: p.input.stick_y };
    }
    r
}

/// The packet that shows our controller to the remote player during the
/// controller test: the test frame number, sticks and triggers beyond the
/// main stick left neutral.
pub fn test_input_packet(player_id: u8, buttons: u16, stick_x: i8, stick_y: i8) -> (p: InputPacket)
    ensures
        p == (InputPacket {
            frame: TEST_FRAME,
            player_id,
            input: FrameInput { buttons, stick_x, stick_y, cstick_x: 0, cstick_y: 0, trigger_l: 0, trigger_r: 0 },
            checksum: 0,
        }),
{
    InputPacket {
        frame: TEST_FRAME,
        player_id,
        input: FrameInput { buttons, stick_x, stick_y, cstick_x: 0, cstick_y: 0, trigger_l: 0, trigger_r: 0 },
        checksum: 0,
    }
}

/// The connectivity check passes when at least 3 of its 5 probe rounds were answered.
pub fn sync_test_passed(rounds_completed: u32) -> (ok: bool)
    ensures
        ok == (rounds_completed >= 3),
{
    rounds_completed >= 3
}


/// Confirmed remote input never moves the latest confirmed frame backwards:
/// afterwards it is the later of the previous latest frame and the frame
/// just confirmed.
pub proof fn lemma_latest_remote_frame_never_decreases(s: BufferState, frame: u32, input: FrameInput)
    ensures
        after_add_remote(s, frame, input).latest_remote_frame >= s.latest_remote_frame,
        after_add_remote(s, frame, input).latest_remote_frame >= frame,
        after_add_remote(s, frame, input).latest_remote_frame == s.latest_remote_frame
            || after_add_remote(s, frame, input).latest_remote_frame == frame,
{
}

/// A late packet for an older frame does not change what is predicted:
/// after confirming `frame` (not behind the latest confirmed frame) and then
/// an older frame, a frame with neither confirmed input nor a prediction is
/// predicted to repeat the input of `frame`.
pub proof fn lemma_late_packet_keeps_prediction(
    s: BufferState,
    frame: u32,
    input: FrameInput,
    older: u32,
    older_input: FrameInput,
    unseen: u32,
)
    requires
        s.latest_remote_frame <= frame,
        older < frame,
        unseen != frame,
        unseen != older,
        !s.remote.contains_key(unseen),
        !s.predicted.contains_key(unseen),
    ensures
        ({
            let t = after_add_remote(after_add_remote(s, frame, input), older, older_input);
            &&& t.latest_remote_frame == frame
            &&& remote_lookup(t, unseen) == (input, true)
        }),
{
}
} // verus!
