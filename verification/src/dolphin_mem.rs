//! GameCube memory as seen through Dolphin: snapshots kept for rollback,
//! addresses of the game's data, controller-state layout, and the rules for
//! recognising the emulated RAM inside Dolphin's address space.

use vstd::prelude::*;
use crate::wire::{be16, be16_bytes, u16_to_le};

verus! {

/// Size of the emulated RAM block saved per snapshot (32 MB).
pub const GC_RAM_SIZE: usize = 33554432;

/// A copy of the emulated RAM taken at one frame.
#[derive(Clone)]
pub struct MemorySnapshot {
    pub frame: u32,
    pub data: Vec<u8>,
    pub ram_base: usize,
}

impl MemorySnapshot {
    /// A zero-filled snapshot of `size` bytes for `frame`.
    pub fn new(frame: u32, size: usize) -> (s: Self)
        ensures
            s.frame == frame,
            s.data@ == Seq::new(size as nat, |i: int| 0u8),
            s.ram_base == 0,
    {
        let mut data: Vec<u8> = Vec::new();
        for i in 0..size
            invariant
                data@ == Seq::new(i as nat, |j: int| 0u8),
        {
            data.push(0u8);
            assert(data@ =~= Seq::new((i + 1) as nat, |j: int| 0u8));
        }
        MemorySnapshot { frame, data, ram_base: 0 }
    }
}

/// The frame a rewind test aims for: `frames_back` before the current
/// one, and frame 0 at the earliest.
pub open spec fn rewind_goal(current_frame: u32, frames_back: u32) -> u32 {
    if current_frame > frames_back {
        (current_frame - frames_back) as u32
    } else {
        0
    }
}

/// A fixed number of snapshot slots, overwritten oldest first.
pub struct SaveStateRing {
    pub states: Vec<Option<MemorySnapshot>>,
    pub capacity: usize,
    pub write_idx: usize,
}

/// The first slot, in slot order, holding a snapshot of `frame`.
pub open spec fn first_with_frame(states: Seq<Option<MemorySnapshot>>, frame: u32) -> Option<int> {
    if exists|i: int| 0 <= i < states.len() && states[i] is Some && states[i]->0.frame == frame {
        Some(choose|i: int| 0 <= i < states.len() && states[i] is Some && states[i]->0.frame == frame
            && forall|j: int| 0 <= j < i ==> !(states[j] is Some && states[j]->0.frame == frame))
    } else {
        None
    }
}

impl SaveStateRing {
    /// The slots match the capacity and the write position is a slot.
    pub open spec fn wf(&self) -> bool {
        &&& self.states@.len() == self.capacity
        &&& (self.capacity > 0 ==> self.write_idx < self.capacity)
    }

    /// A ring of `capacity` empty slots.
    pub fn new(capacity: usize) -> (r: Self)
        ensures
            r.wf(),
            r.capacity == capacity,
            r.write_idx == 0,
            forall|i: int| 0 <= i < capacity ==> r.states@[i] is None,
    {
        let mut states: Vec<Option<MemorySnapshot>> = Vec::with_capacity(capacity);
        for i in 0..capacity
            invariant
                states@.len() == i,
                forall|j: int| 0 <= j < i ==> states@[j] is None,
        {
            states.push(None);
        }
        SaveStateRing { states, capacity, write_idx: 0 }
    }

    /// Store a snapshot in the current slot, overwriting what was there,
    /// and move the write position on.
    pub fn push(&mut self, snapshot: MemorySnapshot)
        requires
            old(self).wf(),
            old(self).capacity > 0,
        ensures
            final(self).wf(),
            final(self).capacity == old(self).capacity,
            final(self).states@ == old(self).states@.update(old(self).write_idx as int, Some(snapshot)),
            final(self).write_idx == (old(self).write_idx + 1) % (old(self).capacity as int),
    {
        let w = self.write_idx;
        self.states.set(w, Some(snapshot));
        self.write_idx = (w + 1) % self.capacity;
    }

    /// The snapshot of `frame` in the lowest-numbered slot holding one.
    pub fn get(&self, frame: u32) -> (r: Option<&MemorySnapshot>)
        ensures
            match first_with_frame(self.states@, frame) {
                Some(i) => r == Some(&self.states@[i]->0),
                None => r is None,
            },
    {
        let n = self.states.len();
        for i in 0..n
            invariant
                n == self.states@.len(),
                forall|j: int| 0 <= j < i ==> !(self.states@[j] is Some && self.states@[j]->0.frame == frame),
        {
            if let Some(s) = &self.states[i] {
                if s.frame == frame {
                    assert(first_with_frame(self.states@, frame) == Some(i as int)) by {
                        let k = choose|k: int| 0 <= k < self.states@.len() && self.states@[k] is Some
                            && self.states@[k]->0.frame == frame
                            && forall|j: int| 0 <= j < k ==> !(self.states@[j] is Some && self.states@[j]->0.frame == frame);
                        assert(0 <= i < self.states@.len() && self.states@[i as int] is Some);
                        if k < i {
                        } else if k > i {
                        }
                    }
                    return Some(s);
                }
            }
        }
        None
    }

    /// The newest snapshot taken at or before `frame`; among snapshots of
    /// that same frame, the one in the highest-numbered slot.
    pub fn get_latest_before(&self, frame: u32) -> (r: Option<&MemorySnapshot>)
        ensures
            r is None <==> forall|j: int| 0 <= j < self.states@.len() ==> !(self.states@[j] is Some && self.states@[j]->0.frame <= frame),
            r is Some ==> exists|i: int| {
                &&& 0 <= i < self.states@.len()
                &&& self.states@[i] == Some(*r->0)
                &&& r->0.frame <= frame
                &&& forall|j: int| 0 <= j < self.states@.len() && self.states@[j] is Some && self.states@[j]->0.frame <= frame
                    ==> self.states@[j]->0.frame <= r->0.frame
                &&& forall|j: int| i < j < self.states@.len() && self.states@[j] is Some ==> self.states@[j]->0.frame != r->0.frame
            },
    {
        let mut best: Option<&MemorySnapshot> = None;
        let ghost mut best_at: int = -1;
        let n = self.states.len();
        for i in 0..n
            invariant
                n == self.states@.len(),
                best is None <==> forall|j: int| 0 <= j < i ==> !(self.states@[j] is Some && self.states@[j]->0.frame <= frame),
                best is Some ==> {
                    &&& 0 <= best_at < i
                    &&& self.states@[best_at] == Some(*best->0)
                    &&& best->0.frame <= frame
                    &&& forall|j: int| 0 <= j < i && self.states@[j] is Some && self.states@[j]->0.frame <= frame
                        ==> self.states@[j]->0.frame <= best->0.frame
                    &&& forall|j: int| best_at < j < i && self.states@[j] is Some ==> self.states@[j]->0.frame != best->0.frame
                },
        {
            if let Some(s) = &self.states[i] {
                if s.frame <= frame {
                    let take = match best {
                        None => true,
                        Some(b) => s.frame >= b.frame,
                    };
                    if take {
                        best = Some(s);
                        proof {
                            best_at = i as int;
                        }
                    }
                }
            }
        }
        best
    }

    /// A rewind test going `frames_back` frames back from `current_frame`:
    /// the snapshot [`Self::get_latest_before`] gives for the frame after
    /// [`rewind_goal`], and how many frames behind the current one it lies.
    pub fn rewind_snapshot(&self, current_frame: u32, frames_back: u32) -> (r: Option<(&MemorySnapshot, u32)>)
        requires
            rewind_goal(current_frame, frames_back) < u32::MAX,
            rewind_goal(current_frame, frames_back) < current_frame || forall|j: int|
                0 <= j < self.states@.len() ==> !(self.states@[j] is Some && #[trigger] self.states@[j]->0.frame
                    == current_frame + 1),
        ensures
            ({
                let limit = rewind_goal(current_frame, frames_back) + 1;
                &&& r is None <==> forall|j: int|
                    0 <= j < self.states@.len() ==> !(self.states@[j] is Some && self.states@[j]->0.frame <= limit)
                &&& r matches Some(p) ==> {
                    &&& p.1 == current_frame - p.0.frame
                    &&& exists|i: int|
                        {
                            &&& 0 <= i < self.states@.len()
                            &&& self.states@[i] == Some(*p.0)
                            &&& p.0.frame <= limit
                            &&& forall|j: int|
                                0 <= j < self.states@.len() && self.states@[j] is Some && self.states@[j]->0.frame
                                    <= limit ==> self.states@[j]->0.frame <= p.0.frame
                            &&& forall|j: int|
                                i < j < self.states@.len() && self.states@[j] is Some ==> self.states@[j]->0.frame
                                    != p.0.frame
                        }
                }
            }),
    {
        let goal = current_frame.saturating_sub(frames_back);
        match self.get_latest_before(goal + 1) {
            Some(snap) => {
                assert(snap.frame <= current_frame);
                Some((snap, current_frame - snap.frame))
            },
            None => None,
        }
    }}

/// Once a snapshot is stored, asking for its frame finds a snapshot of that frame.
pub proof fn lemma_pushed_snapshot_is_found(ring: SaveStateRing, snapshot: MemorySnapshot)
    requires
        ring.wf(),
        ring.capacity > 0,
    ensures
        first_with_frame(ring.states@.update(ring.write_idx as int, Some(snapshot)), snapshot.frame) is Some,
{
    let s = ring.states@.update(ring.write_idx as int, Some(snapshot));
    assert(s[ring.write_idx as int] is Some && s[ring.write_idx as int]->0.frame == snapshot.frame);
}

/// GameCube controller state, laid out as the game's PADStatus.
#[derive(Clone, Copy, Debug, PartialEq, Eq, Structural)]
pub struct GCPadStatus {
    pub buttons: u16,
    pub stick_x: i8,
    pub stick_y: i8,
    pub cstick_x: i8,
    pub cstick_y: i8,
    pub trigger_l: u8,
    pub trigger_r: u8,
}

impl MatchOutcome {
    /// An identical copy.
    pub fn duplicate(&self) -> (r: MatchOutcome)
        ensures
            r == *self,
    {
        MatchOutcome { result: self.result.clone(), p1_health: self.p1_health, p2_health: self.p2_health, frame: self.frame }
    }
}

impl Default for GCPadStatus {
    fn default() -> (r: Self)
        ensures
            r == (GCPadStatus { buttons: 0, stick_x: 0, stick_y: 0, cstick_x: 0, cstick_y: 0, trigger_l: 0, trigger_r: 0 }),
    {
        GCPadStatus { buttons: 0, stick_x: 0, stick_y: 0, cstick_x: 0, cstick_y: 0, trigger_l: 0, trigger_r: 0 }
    }
}

/// First address of the game's controller polling buffer.
pub const PAD_BUFFER_BASE: u32 = 0x802233A0;
/// Bytes per controller in the polling buffer.
pub const PAD_STATUS_SIZE: u32 = 12;
/// Offset from a player's struct to its processed button state.
pub const BUTTONS_OFFSET: u32 = 0x252;
/// Offset from a player's struct to its animation frame counter.
pub const ANIM_FRAME_OFFSET: u32 = 0x25A;
/// Offset from a player's struct to its damage taken.
pub const HEALTH_OFFSET: u32 = 0x262;
/// Offset from a player's struct to its chakra.
pub const CHAKRA_OFFSET: u32 = 0x28E;
/// Offset from a player's struct to its block meter.
pub const BLOCK_METER_OFFSET: u32 = 0x294;
/// Offset from a player's struct to its vertical speed.
pub const VERTICAL_SPEED_OFFSET: u32 = 0x1DC;
/// Offset from a player's struct to its gravity.
pub const GRAVITY_OFFSET: u32 = 0x1E0;
/// GameCube address of the lower half of the OS timebase.
pub const TIMEBASE_ADDR: u32 = 0x800000F8;
/// What the character-unlock word reads once the unlock codes are applied.
pub const GECKO_UNLOCK_VALUE: u32 = 0x0001FF03;
/// GameCube address of the character-unlock word.
pub const GECKO_UNLOCK_ADDR: u32 = 0x802232E8;
/// Offsets from a player's struct to its main stick, C-stick and analog
/// triggers, one byte each.
pub const STICK_X_OFFSET: u32 = 0x10;
pub const STICK_Y_OFFSET: u32 = 0x11;
pub const CSTICK_X_OFFSET: u32 = 0x12;
pub const CSTICK_Y_OFFSET: u32 = 0x13;
pub const TRIGGER_L_OFFSET: u32 = 0x14;
pub const TRIGGER_R_OFFSET: u32 = 0x15;

/// Where in the emulated RAM block a GameCube address lies: its low 25 bits
/// (the 0x80/0x81 segment prefix is dropped).
pub open spec fn ram_offset(gc_addr: u32) -> u32 {
    gc_addr % 0x2000000
}

/// The RAM-block offset of a GameCube address.
pub fn gc_offset(gc_addr: u32) -> (off: u32)
    ensures
        off == ram_offset(gc_addr),
{
    gc_addr % 0x2000000
}

/// The address of the pointer to player `player`'s struct (players 0 to 3).
pub open spec fn player_pointer_spec(player: u8) -> Option<u32> {
    if player == 0 {
        Some(0x80226358u32)
    } else if player == 1 {
        Some(0x80226614u32)
    } else if player == 2 {
        Some(0x802268D0u32)
    } else if player == 3 {
        Some(0x80226B8Cu32)
    } else {
        None
    }
}

/// The address of the pointer to a player's struct; `None` for an invalid player index.
pub fn player_pointer_address(player: u8) -> (a: Option<u32>)
    ensures
        a == player_pointer_spec(player),
{
    match player {
        0 => Some(0x80226358u32),
        1 => Some(0x80226614u32),
        2 => Some(0x802268D0u32),
        3 => Some(0x80226B8Cu32),
        _ => None,
    }
}

/// Whether a pointer read from the game points into the 24 MB of RAM the
/// game uses; player pointers outside it mean no fight is running.
pub open spec fn in_gc_ram(ptr: u32) -> bool {
    0x80000000 <= ptr < 0x81800000
}

/// Whether a pointer read from the game points into its RAM.
pub fn is_gc_ram_pointer(ptr: u32) -> (b: bool)
    ensures
        b == in_gc_ram(ptr),
{
    ptr >= 0x80000000 && ptr < 0x81800000
}

/// The address of controller port `port`'s entry in the polling buffer;
/// `None` for a port beyond 3.
pub fn pad_buffer_address(port: u8) -> (a: Option<u32>)
    ensures
        port > 3 ==> a is None,
        port <= 3 ==> a == Some((PAD_BUFFER_BASE + port * PAD_STATUS_SIZE) as u32),
{
    if port > 3 {
        None
    } else {
        Some(PAD_BUFFER_BASE + (port as u32) * PAD_STATUS_SIZE)
    }
}

/// The 8 bytes written for a controller: big-endian buttons, the four stick
/// axes as bytes, then the two triggers.
pub open spec fn pad_bytes_spec(p: GCPadStatus) -> Seq<u8> {
    be16_bytes(p.buttons) + seq![p.stick_x as u8, p.stick_y as u8, p.cstick_x as u8, p.cstick_y as u8, p.trigger_l, p.trigger_r]
}

/// The bytes written into the polling buffer for a controller.
pub fn pad_bytes(p: &GCPadStatus) -> (b: [u8; 8])
    ensures
        b@ == pad_bytes_spec(*p),
{
    let le = u16_to_le(p.buttons);
    let b = [le[1], le[0], p.stick_x as u8, p.stick_y as u8, p.cstick_x as u8, p.cstick_y as u8, p.trigger_l, p.trigger_r];
    assert(b@ =~= pad_bytes_spec(*p));
    b
}

/// One region of Dolphin's address space, as a memory query reports it.
#[derive(Clone, Copy, Debug)]
pub struct RegionInfo {
    pub base: usize,
    pub size: usize,
    /// Whether the region is committed.
    pub committed: bool,
    pub protect: u32,
}

/// Page protection: read/write.
pub const PAGE_READWRITE: u32 = 0x04;
/// Page protection: execute/read/write.
pub const PAGE_EXECUTE_READWRITE: u32 = 0x40;

/// Whether a region of the first walk may hold the emulated RAM: committed,
/// read/write and exactly 32 MB.
pub open spec fn exact_ram_region(r: RegionInfo) -> bool {
    r.size == GC_RAM_SIZE && r.committed && r.protect == PAGE_READWRITE
}

/// Whether a region of the second walk may hold the emulated RAM: committed,
/// read/write or executable read/write, and larger than 32 MB.
pub open spec fn large_ram_region(r: RegionInfo) -> bool {
    r.size > GC_RAM_SIZE && r.committed && (r.protect == PAGE_READWRITE || r.protect == PAGE_EXECUTE_READWRITE)
}

/// The bases, in order, of the regions that pass a test.
pub open spec fn bases_where(rs: Seq<RegionInfo>, exact: bool) -> Seq<usize>
    decreases rs.len(),
{
    if rs.len() == 0 {
        Seq::empty()
    } else {
        let rest = bases_where(rs.drop_last(), exact);
        let r = rs.last();
        if (exact && exact_ram_region(r)) || (!exact && large_ram_region(r)) {
            rest.push(r.base)
        } else {
            rest
        }
    }
}

/// Regions that may hold the emulated RAM, in the order searched: the exact
/// 32 MB ones of the first walk over the address space, then the larger
/// ones of the second walk.
pub open spec fn ram_candidates_spec(first: Seq<RegionInfo>, second: Seq<RegionInfo>) -> Seq<usize> {
    bases_where(first, true) + bases_where(second, false)
}

/// The bases of regions that may hold the emulated RAM (see [`ram_candidates_spec`]).
pub fn ram_candidates(first: &Vec<RegionInfo>, second: &Vec<RegionInfo>) -> (c: Vec<usize>)
    ensures
        c@ == ram_candidates_spec(first@, second@),
{
    let mut c: Vec<usize> = Vec::new();
    for i in 0..first.len()
        invariant
            c@ == bases_where(first@.subrange(0, i as int), true),
    {
        let r = first[i];
        assert(first@.subrange(0, i + 1).drop_last() =~= first@.subrange(0, i as int));
        if r.size == GC_RAM_SIZE && r.committed && r.protect == PAGE_READWRITE {
            c.push(r.base);
        }
    }
    assert(first@.subrange(0, first@.len() as int) =~= first@);
    let ghost head = c@;
    for i in 0..second.len()
        invariant
            head == bases_where(first@, true),
            c@ == head + bases_where(second@.subrange(0, i as int), false),
    {
        let r = second[i];
        assert(second@.subrange(0, i + 1).drop_last() =~= second@.subrange(0, i as int));
        if r.size > GC_RAM_SIZE && r.committed && (r.protect == PAGE_READWRITE || r.protect == PAGE_EXECUTE_READWRITE) {
            c.push(r.base);
        }
        assert(c@ =~= head + bases_where(second@.subrange(0, i + 1), false));
    }
    assert(second@.subrange(0, second@.len() as int) =~= second@);
    c
}

/// What probing one candidate region read: whether its first word could be
/// read at all, and the words at the timebase, unlock-code and player-pointer
/// offsets (a failed read leaves 0).
#[derive(Clone, Copy, Debug)]
pub struct RamProbe {
    pub base: usize,
    pub id_read_ok: bool,
    pub timebase: u32,
    pub gecko: u32,
    pub p1_ptr: u32,
}

/// A probed region is certainly the emulated RAM: readable, the unlock codes
/// are in place, and either the clock is running or a player exists.
pub open spec fn probe_is_certain(p: RamProbe) -> bool {
    p.id_read_ok && p.gecko == GECKO_UNLOCK_VALUE && (p.timebase > 1000 || in_gc_ram(p.p1_ptr))
}

/// Pick the emulated RAM among the candidates: the first probe that is
/// certain; else the first candidate whose re-read timebase shows a running
/// clock; else the first candidate; with no candidates, none.
pub fn choose_ram_base(probes: &Vec<RamProbe>, retimes: &Vec<u32>) -> (r: Option<usize>)
    requires
        probes@.len() == retimes@.len(),
    ensures
        (exists|i: int| 0 <= i < probes@.len() && probe_is_certain(probes@[i])) ==> exists|i: int| {
            &&& 0 <= i < probes@.len()
            &&& probe_is_certain(probes@[i])
            &&& forall|j: int| 0 <= j < i ==> !probe_is_certain(probes@[j])
            &&& r == Some(probes@[i].base)
        },
        !(exists|i: int| 0 <= i < probes@.len() && probe_is_certain(probes@[i])) ==> {
            if exists|i: int| 0 <= i < retimes@.len() && retimes@[i] > 1000 {
                exists|i: int| {
                    &&& 0 <= i < retimes@.len()
                    &&& retimes@[i] > 1000
                    &&& forall|j: int| 0 <= j < i ==> retimes@[j] <= 1000
                    &&& r == Some(probes@[i].base)
                }
            } else if probes@.len() > 0 {
                r == Some(probes@[0].base)
            } else {
                r is None
            }
        },
{
    let n = probes.len();
    for i in 0..n
        invariant
            n == probes@.len(),
            forall|j: int| 0 <= j < i ==> !probe_is_certain(probes@[j]),
    {
        let p = probes[i];
        if p.id_read_ok && p.gecko == GECKO_UNLOCK_VALUE && (p.timebase > 1000 || is_gc_ram_pointer(p.p1_ptr)) {
            return Some(p.base);
        }
    }
    for i in 0..n
        invariant
            n == probes@.len(),
            n == retimes@.len(),
            forall|j: int| 0 <= j < n ==> !probe_is_certain(probes@[j]),
            forall|j: int| 0 <= j < i ==> retimes@[j] <= 1000,
    {
        if retimes[i] > 1000 {
            return Some(probes[i].base);
        }
    }
    if n > 0 {
        Some(probes[0].base)
    } else {
        None
    }
}

/// Whether the big-endian 16-bit value at `i` in `buf` is `value`.
pub open spec fn u16_at(buf: Seq<u8>, i: int, value: u16) -> bool {
    0 <= i && i + 1 < buf.len() && be16(buf[i], buf[i + 1]) == value
}

/// The offsets below `n`, ascending, at which `value` is stored big-endian.
pub open spec fn u16_positions(buf: Seq<u8>, value: u16, n: int) -> Seq<int>
    decreases n,
{
    if n <= 0 {
        Seq::empty()
    } else if u16_at(buf, n - 1, value) {
        u16_positions(buf, value, n - 1).push(n - 1)
    } else {
        u16_positions(buf, value, n - 1)
    }
}

/// Positions found below `n` are a prefix of those found below a larger bound.
pub proof fn lemma_u16_positions_prefix(buf: Seq<u8>, value: u16, n: int, m: int)
    requires
        0 <= n <= m,
    ensures
        u16_positions(buf, value, n).len() <= u16_positions(buf, value, m).len(),
        u16_positions(buf, value, m).take(u16_positions(buf, value, n).len() as int) == u16_positions(buf, value, n),
    decreases m - n,
{
    if n < m {
        lemma_u16_positions_prefix(buf, value, n, m - 1);
        let a = u16_positions(buf, value, n);
        let b = u16_positions(buf, value, m - 1);
        let c = u16_positions(buf, value, m);
        if u16_at(buf, m - 1, value) {
            assert(c.take(a.len() as int) =~= b.take(a.len() as int));
        }
    } else {
        let a = u16_positions(buf, value, n);
        assert(a.take(a.len() as int) =~= a);
    }
}

/// Every position is in bounds and holds the value.
pub proof fn lemma_u16_positions_sound(buf: Seq<u8>, value: u16, n: int, k: int)
    requires
        0 <= k < u16_positions(buf, value, n).len(),
    ensures
        0 <= u16_positions(buf, value, n)[k] < n,
        u16_at(buf, u16_positions(buf, value, n)[k], value),
    decreases n,
{
    if n > 0 {
        if u16_at(buf, n - 1, value) && k == u16_positions(buf, value, n - 1).len() {
        } else {
            lemma_u16_positions_sound(buf, value, n - 1, k);
        }
    }
}

/// The addresses, in ascending order and at most `cap` of them, at which the
/// big-endian `value` occurs in `buf`, where `buf` starts at `base_addr`.
pub open spec fn scan_u16_spec(buf: Seq<u8>, value: u16, base_addr: u32, cap: nat) -> Seq<u32> {
    let found = u16_positions(buf, value, buf.len() - 1);
    let kept = if found.len() <= cap { found } else { found.take(cap as int) };
    kept.map_values(|i: int| (base_addr + i) as u32)
}

/// Search memory read into `buf` (starting at GameCube address `base_addr`)
/// for a big-endian 16-bit value; stop after `cap` hits.
pub fn scan_u16(buf: &[u8], value: u16, base_addr: u32, cap: usize) -> (hits: Vec<u32>)
    requires
        base_addr + buf@.len() <= u32::MAX,
        cap > 0,
    ensures
        hits@ == scan_u16_spec(buf@, value, base_addr, cap as nat),
{
    let le = u16_to_le(value);
    let hi = le[1];
    let lo = le[0];
    let len = buf.len();
    let end = if len > 0 { len - 1 } else { 0 };
    let mut hits: Vec<u32> = Vec::new();
    let ghost total = buf@.len() - 1;
    let mut i: usize = 0;
    while i < end
        invariant
            len == buf@.len(),
            end == (if len > 0 { len - 1 } else { 0 }),
            i <= end,
            hits@ == u16_positions(buf@, value, i as int).map_values(|k: int| (base_addr + k) as u32),
            hits@.len() < cap,
            base_addr + len <= u32::MAX,
            total == buf@.len() - 1,
            hi == be16_bytes(value)[0],
            lo == be16_bytes(value)[1],
        decreases end - i,
    {
        assert(u16_at(buf@, i as int, value) <==> (buf@[i as int] == hi && buf@[i + 1] == lo)) by {
            crate::wire::lemma_le16_roundtrip(value);
            crate::wire::lemma_le16_bytes_roundtrip(buf@[i + 1], buf@[i as int]);
        }
        if buf[i] == hi && buf[i + 1] == lo {
            hits.push((base_addr + i as u32) as u32);
            assert(hits@ =~= u16_positions(buf@, value, i + 1).map_values(|k: int| (base_addr + k) as u32));
            if hits.len() >= cap {
                proof {
                    lemma_u16_positions_prefix(buf@, value, i + 1, total);
                    let found = u16_positions(buf@, value, total);
                    assert(found.take(cap as int) =~= u16_positions(buf@, value, i + 1));
                    if found.len() == cap {
                        assert(found.take(cap as int) =~= found);
                    }
                }
                return hits;
            }
        } else {
            assert(hits@ =~= u16_positions(buf@, value, i + 1).map_values(|k: int| (base_addr + k) as u32));
        }
        i += 1;
    }
    proof {
        if len == 0 {
            assert(u16_positions(buf@, value, total) =~= Seq::<int>::empty());
        }
    }
    hits
}

/// The result of a fight as the winner check reports it.
#[derive(Clone, Debug)]
pub struct MatchOutcome {
    /// "p1_win", "p2_win", "draw" or "playing".
    pub result: String,
    pub p1_health: u16,
    pub p2_health: u16,
    pub frame: u32,
}

/// Damage at which a player is counted as knocked out (health counts damage taken).
pub const KO_THRESHOLD: u16 = 150;

/// The verdict for two players' damage: both knocked out is a draw, one
/// knocked out loses, neither means the fight goes on.
pub open spec fn verdict(p1_health: u16, p2_health: u16) -> Seq<char> {
    if p1_health >= KO_THRESHOLD && p2_health >= KO_THRESHOLD {
        "draw"@
    } else if p1_health >= KO_THRESHOLD {
        "p2_win"@
    } else if p2_health >= KO_THRESHOLD {
        "p1_win"@
    } else {
        "playing"@
    }
}

/// The winner check on two players' damage at a frame.
pub fn winner_outcome(p1_health: u16, p2_health: u16, frame: u32) -> (o: MatchOutcome)
    ensures
        o.result@ == verdict(p1_health, p2_health),
        o.p1_health == p1_health,
        o.p2_health == p2_health,
        o.frame == frame,
{
    let p1_ko = p1_health >= KO_THRESHOLD;
    let p2_ko = p2_health >= KO_THRESHOLD;
    let result = if p1_ko && p2_ko {
        String::from_str("draw")
    } else if p1_ko {
        String::from_str("p2_win")
    } else if p2_ko {
        String::from_str("p1_win")
    } else {
        String::from_str("playing")
    };
    MatchOutcome { result, p1_health, p2_health, frame }
}


/// The bases that a test picks include every region passing it.
proof fn lemma_bases_where_includes(rs: Seq<RegionInfo>, exact: bool, j: int)
    requires
        0 <= j < rs.len(),
        (exact && exact_ram_region(rs[j])) || (!exact && large_ram_region(rs[j])),
    ensures
        bases_where(rs, exact).contains(rs[j].base),
    decreases rs.len(),
{
    if j < rs.len() - 1 {
        lemma_bases_where_includes(rs.drop_last(), exact, j);
        assert(rs.drop_last()[j] == rs[j]);
        let rest = bases_where(rs.drop_last(), exact);
        let w = choose|w: int| 0 <= w < rest.len() && rest[w] == rs[j].base;
        if (exact && exact_ram_region(rs.last())) || (!exact && large_ram_region(rs.last())) {
            assert(rest.push(rs.last().base)[w] == rs[j].base);
        }
    } else {
        let rest = bases_where(rs.drop_last(), exact);
        assert(rest.push(rs[j].base)[rest.len() as int] == rs[j].base);
    }
}

/// Every region that may hold the emulated RAM is tried: from the first
/// walk, each committed read/write region of exactly 32 MB; from the
/// second walk, each committed region larger than 32 MB whose protection
/// is read/write (0x04) or executable read/write (0x40).
pub proof fn lemma_ram_candidates_cover_regions(first: Seq<RegionInfo>, second: Seq<RegionInfo>)
    ensures
        forall|j: int|
            0 <= j < first.len() && first[j].size == 0x2000000 && first[j].committed && first[j].protect == 0x04
                ==> #[trigger] ram_candidates_spec(first, second).contains(first[j].base),
        forall|j: int|
            0 <= j < second.len() && second[j].size > 0x2000000 && second[j].committed && (second[j].protect == 0x04
                || second[j].protect == 0x40) ==> #[trigger] ram_candidates_spec(first, second).contains(
                second[j].base,
            ),
{
    let a = bases_where(first, true);
    let b = bases_where(second, false);
    assert forall|j: int|
        0 <= j < first.len() && first[j].size == 0x2000000 && first[j].committed && first[j].protect
            == 0x04 implies #[trigger] ram_candidates_spec(first, second).contains(first[j].base) by {
        lemma_bases_where_includes(first, true, j);
        let w = choose|w: int| 0 <= w < a.len() && a[w] == first[j].base;
        assert((a + b)[w] == first[j].base);
    }
    assert forall|j: int|
        0 <= j < second.len() && second[j].size > 0x2000000 && second[j].committed && (second[j].protect == 0x04
            || second[j].protect == 0x40) implies #[trigger] ram_candidates_spec(first, second).contains(
        second[j].base,
    ) by {
        lemma_bases_where_includes(second, false, j);
        let w = choose|w: int| 0 <= w < b.len() && b[w] == second[j].base;
        assert((a + b)[a.len() + w] == second[j].base);
    }
}
} // verus!
