//! What the memory-inspection tools compute from bytes read out of the
//! emulated RAM: hex dumps, busy regions, the state of the unlock codes and
//! the packed lines of the debug report.

use vstd::prelude::*;
use crate::sorting::{is_stable_order, stable_order};
use crate::text::{hex_digits, push_chars, push_hex_padded, push_str, string_of, trim, trim_chars, zero_pad};
use crate::wire::{be16, u16_from_le};

verus! {

/// Most bytes a hex dump shows.
pub const MAX_DUMP_LEN: u32 = 4096;

/// How many bytes a dump of `length` bytes shows.
pub fn dump_length(length: u32) -> (n: usize)
    ensures
        n == (if length < MAX_DUMP_LEN { length } else { MAX_DUMP_LEN }),
{
    if length < MAX_DUMP_LEN {
        length as usize
    } else {
        MAX_DUMP_LEN as usize
    }
}

/// An address as `0x` and eight upper-case hexadecimal digits.
pub open spec fn hex_address_spec(a: u32) -> Seq<char> {
    "0x"@ + zero_pad(hex_digits(a as nat), 8)
}

/// An address as `0x` and eight upper-case hexadecimal digits.
pub fn hex_address(a: u32) -> (s: String)
    ensures
        s@ == hex_address_spec(a),
{
    let mut v: Vec<char> = Vec::new();
    push_str(&mut v, "0x");
    push_hex_padded(&mut v, a as u64, 8);
    string_of(&v)
}

/// A byte as two upper-case hexadecimal digits.
pub open spec fn hex_byte(b: u8) -> Seq<char> {
    zero_pad(hex_digits(b as nat), 2)
}

/// Bytes as hexadecimal pairs separated by single spaces.
pub open spec fn hex_bytes_joined(bs: Seq<u8>) -> Seq<char>
    decreases bs.len(),
{
    if bs.len() == 0 {
        seq![]
    } else if bs.len() == 1 {
        hex_byte(bs[0])
    } else {
        hex_bytes_joined(bs.drop_last()) + seq![' '] + hex_byte(bs.last())
    }
}

/// A byte as shown in a dump's text column: printable ASCII as itself,
/// anything else as a dot.
pub open spec fn printable(b: u8) -> char {
    if 0x20 <= b < 0x7F {
        b as char
    } else {
        '.'
    }
}

/// One line of a dump: the address, the bytes in hexadecimal, two spaces and the text column.
pub open spec fn dump_line(chunk: Seq<u8>, addr: u32) -> Seq<char> {
    hex_address_spec(addr) + ": "@ + hex_bytes_joined(chunk) + "  "@ + chunk.map_values(|b: u8| printable(b))
}

/// The end of the `k`-th 16-byte row of a `len`-byte dump.
pub open spec fn row_end(k: int, len: int) -> int {
    if 16 * k + 16 < len {
        16 * k + 16
    } else {
        len
    }
}

/// A dump of `buf`, which starts at `gc_addr`: one line per 16 bytes.
pub open spec fn hex_dump_spec(buf: Seq<u8>, gc_addr: u32) -> Seq<Seq<char>> {
    Seq::new(
        ((buf.len() + 15) / 16) as nat,
        |k: int| dump_line(buf.subrange(16 * k, row_end(k, buf.len() as int)), (gc_addr + 16 * k) as u32),
    )
}

/// One dump line (see [`dump_line`]).
fn dump_line_of(chunk: &[u8], addr: u32) -> (s: String)
    ensures
        s@ == dump_line(chunk@, addr),
{
    let mut v: Vec<char> = Vec::new();
    push_str(&mut v, "0x");
    push_hex_padded(&mut v, addr as u64, 8);
    push_str(&mut v, ": ");
    let ghost head = v@;
    let n = chunk.len();
    assert(chunk@.subrange(0, 0) =~= Seq::<u8>::empty());
    for i in 0..n
        invariant
            n == chunk@.len(),
            v@ == head + hex_bytes_joined(chunk@.subrange(0, i as int)),
    {
        let ghost pre = v@;
        if i > 0 {
            v.push(' ');
        }
        push_hex_padded(&mut v, chunk[i] as u64, 2);
        assert(chunk@.subrange(0, i + 1).drop_last() =~= chunk@.subrange(0, i as int));
        proof {
            if i == 0 {
                assert(v@ =~= head + hex_bytes_joined(chunk@.subrange(0, 1)));
            } else {
                assert(v@ =~= head + hex_bytes_joined(chunk@.subrange(0, i + 1)));
            }
        }
    }
    assert(chunk@.subrange(0, n as int) =~= chunk@);
    push_str(&mut v, "  ");
    let ghost mid = v@;
    for i in 0..n
        invariant
            n == chunk@.len(),
            v@ == mid + chunk@.subrange(0, i as int).map_values(|b: u8| printable(b)),
    {
        let b = chunk[i];
        let c = if 0x20 <= b && b < 0x7F { b as char } else { '.' };
        v.push(c);
        assert(v@ =~= mid + chunk@.subrange(0, i + 1).map_values(|b: u8| printable(b)));
    }
    assert(v@ =~= dump_line(chunk@, addr));
    string_of(&v)
}

/// A hex dump of `buf`, which starts at `gc_addr` (see [`hex_dump_spec`]).
pub fn hex_dump_lines(buf: &[u8], gc_addr: u32) -> (lines: Vec<String>)
    requires
        buf@.len() == 0 || gc_addr + 16 * ((buf@.len() - 1) / 16) <= u32::MAX,
    ensures
        lines@.map_values(|l: String| l@) == hex_dump_spec(buf@, gc_addr),
{
    let n = buf.len();
    let rows: usize = n / 16 + if n % 16 > 0 { 1 } else { 0 };
    assert(rows == (n + 15) / 16);
    let mut lines: Vec<String> = Vec::new();
    for k in 0..rows
        invariant
            n == buf@.len(),
            rows == (n + 15) / 16,
            n == 0 || gc_addr + 16 * ((n - 1) / 16) <= u32::MAX,
            lines@.len() == k,
            forall|j: int| 0 <= j < k ==> #[trigger] lines@[j]@ == hex_dump_spec(buf@, gc_addr)[j],
    {
        assert(k <= (n - 1) / 16);
        let start = 16 * k;
        let end = if n - start > 16 { start + 16 } else { n };
        let addr = gc_addr + start as u32;
        let line = dump_line_of(&buf[start..end], addr);
        assert(buf@.subrange(start as int, end as int) == buf@.subrange(16 * k, row_end(k as int, n as int)));
        lines.push(line);
    }
    assert(lines@.map_values(|l: String| l@) =~= hex_dump_spec(buf@, gc_addr));
    lines
}


/// Size of the blocks whose activity is measured.
pub const BLOCK_SIZE: usize = 1024;
/// Non-zero values a block needs to count as busy.
pub const BUSY_THRESHOLD: u32 = 50;
/// How many busy blocks the report lists.
pub const TOP_BLOCKS: usize = 20;

/// The non-zero big-endian 16-bit values among the first `k` pairs from
/// `start` (the pairs at `start`, `start + 2`, ..., each with both bytes in `buf`).
pub open spec fn nonzero_pairs(buf: Seq<u8>, start: int, k: int) -> nat
    decreases k,
{
    if k <= 0 {
        0
    } else {
        let i = start + 2 * (k - 1);
        nonzero_pairs(buf, start, k - 1) + (if i + 1 < buf.len() && be16(buf[i], buf[i + 1]) != 0 {
            1nat
        } else {
            0nat
        })
    }
}

/// The number of non-zero 16-bit values at the even offsets of block `b`.
pub open spec fn block_count(buf: Seq<u8>, b: int) -> nat {
    let start = 1024 * b;
    let end = if start + 1024 < buf.len() { start + 1024 } else { buf.len() as int };
    nonzero_pairs(buf, start, (end - start + 1) / 2)
}

/// The busy blocks of `buf` below block `nb`, in order, as (address, count);
/// `buf` starts at `base`.
pub open spec fn busy_blocks(buf: Seq<u8>, base: u32, nb: int) -> Seq<(u32, u32)>
    decreases nb,
{
    if nb <= 0 {
        seq![]
    } else {
        busy_blocks(buf, base, nb - 1) + (if block_count(buf, nb - 1) > BUSY_THRESHOLD {
            seq![((base + 1024 * (nb - 1)) as u32, block_count(buf, nb - 1) as u32)]
        } else {
            seq![]
        })
    }
}

/// The number of blocks in `len` bytes.
pub open spec fn block_total(len: int) -> int {
    (len + 1023) / 1024
}

/// The non-zero values at the even offsets of one block (see [`block_count`]).
fn count_block(buf: &[u8], b: usize) -> (c: u32)
    requires
        1024 * b < buf@.len(),
    ensures
        c == block_count(buf@, b as int),
        c <= 512,
{
    let n = buf.len();
    let start = 1024 * b;
    let end = if n - start > 1024 { start + 1024 } else { n };
    let pairs = (end - start + 1) / 2;
    let mut c: u32 = 0;
    for k in 0..pairs
        invariant
            n == buf@.len(),
            start == 1024 * b,
            start < end <= n,
            end - start <= 1024,
            pairs == (end - start + 1) / 2,
            c == nonzero_pairs(buf@, start as int, k as int),
            c <= k,
    {
        let i = start + 2 * k;
        if i + 1 < n && u16_from_le(buf[i + 1], buf[i]) != 0 {
            c += 1;
        }
    }
    c
}

/// The busy blocks of `buf`, which starts at `base` (see [`busy_blocks`]):
/// 1 KB blocks holding more than 50 non-zero 16-bit values.
pub fn block_activity(buf: &[u8], base: u32) -> (r: Vec<(u32, u32)>)
    requires
        base + buf@.len() <= u32::MAX + 1,
    ensures
        r@ == busy_blocks(buf@, base, block_total(buf@.len() as int)),
{
    let n = buf.len();
    let nb: usize = n / 1024 + if n % 1024 > 0 { 1 } else { 0 };
    assert(nb == block_total(n as int));
    let mut out: Vec<(u32, u32)> = Vec::new();
    for b in 0..nb
        invariant
            n == buf@.len(),
            nb == block_total(n as int),
            base + n <= u32::MAX + 1,
            out@ == busy_blocks(buf@, base, b as int),
    {
        let c = count_block(buf, b);
        if c > BUSY_THRESHOLD {
            out.push((base + (1024 * b) as u32, c));
        }
    }
    out
}

/// The ordering key that puts higher counts first.
pub open spec fn busier_first(blocks: Seq<(u32, u32)>) -> Seq<u32> {
    Seq::new(blocks.len(), |i: int| (u32::MAX - blocks[i].1) as u32)
}

/// The busiest blocks: stably sorted by count, highest first, at most 20.
pub fn busiest_blocks(blocks: &Vec<(u32, u32)>) -> (r: Vec<(u32, u32)>)
    ensures
        exists|order: Seq<usize>|
            is_stable_order(busier_first(blocks@), order) && r@ == Seq::new(
                order.len(),
                |k: int| blocks@[order[k] as int],
            ).take(if order.len() < TOP_BLOCKS { order.len() as int } else { TOP_BLOCKS as int }),
{
    let mut keys: Vec<u32> = Vec::new();
    for i in 0..blocks.len()
        invariant
            keys@.len() == i,
            forall|j: int| 0 <= j < i ==> keys@[j] == (u32::MAX - blocks@[j].1) as u32,
    {
        keys.push(u32::MAX - blocks[i].1);
    }
    assert(keys@ =~= busier_first(blocks@));
    let order = stable_order(&keys);
    let limit = if order.len() < TOP_BLOCKS { order.len() } else { TOP_BLOCKS };
    let mut out: Vec<(u32, u32)> = Vec::new();
    for k in 0..limit
        invariant
            is_stable_order(keys@, order@),
            keys@.len() == blocks@.len(),
            limit <= order@.len(),
            out@.len() == k,
            forall|j: int| 0 <= j < k ==> out@[j] == blocks@[order@[j] as int],
    {
        out.push(blocks[order[k]]);
    }
    assert(out@ =~= Seq::new(order@.len(), |k: int| blocks@[order@[k] as int]).take(limit as int));
    out
}

/// Whether an unlock code's value is in place: for the codes that set a
/// half-word, either half holding the expected value; else the whole word.
pub open spec fn gecko_value_ok_spec(value: u32, expected: u32, half_word: bool) -> bool {
    if half_word {
        value / 0x10000 == expected || value % 0x10000 == expected
    } else {
        value == expected
    }
}

/// Whether an unlock code's value is in place (see [`gecko_value_ok_spec`]).
pub fn gecko_value_ok(value: u32, expected: u32, half_word: bool) -> (b: bool)
    ensures
        b == gecko_value_ok_spec(value, expected, half_word),
{
    if half_word {
        let hi = (value & 0xFFFF0000) >> 16;
        let lo = value & 0xFFFF;
        assert(hi == value / 0x10000 && lo == value % 0x10000) by (bit_vector)
            requires
                hi == (value & 0xFFFF0000) >> 16,
                lo == value & 0xFFFF,
        ;
        hi == expected || lo == expected
    } else {
        value == expected
    }
}

/// Whether a value could be a frame counter: not zero and below 0x10000000
/// (so not a pointer).
pub fn plausible_frame_counter(value: u32) -> (b: bool)
    ensures
        b == (value != 0 && value < 0x10000000),
{
    value != 0 && value < 0x10000000
}

/// Longest a packed line may grow before it is cut.
pub const PACK_WIDTH: usize = 80;

/// Packing entries into report lines, one entry at a time: an entry joins
/// the current line, and a line longer than 80 characters is emitted,
/// trimmed and indented by two spaces.
pub open spec fn pack_fold(es: Seq<Seq<char>>) -> (Seq<Seq<char>>, Seq<char>)
    decreases es.len(),
{
    if es.len() == 0 {
        (seq![], seq![])
    } else {
        let (ls, cur) = pack_fold(es.drop_last());
        let next = cur + es.last();
        if next.len() > PACK_WIDTH {
            (ls.push("  "@ + trim(next)), seq![])
        } else {
            (ls, next)
        }
    }
}

/// The report lines for a list of entries (see [`pack_fold`]): a
/// non-empty remainder makes a last line.
pub open spec fn packed_lines(es: Seq<Seq<char>>) -> Seq<Seq<char>> {
    let (ls, cur) = pack_fold(es);
    if cur.len() > 0 {
        ls.push("  "@ + trim(cur))
    } else {
        ls
    }
}

/// A packed report line: two spaces and the trimmed text.
fn indented(cur: &Vec<char>) -> (s: String)
    ensures
        s@ == "  "@ + trim(cur@),
{
    let mut v: Vec<char> = Vec::new();
    push_str(&mut v, "  ");
    push_chars(&mut v, &trim_chars(cur));
    string_of(&v)
}

/// The report lines for a list of entries (see [`packed_lines`]).
pub fn pack_entries(entries: &Vec<String>) -> (lines: Vec<String>)
    ensures
        lines@.map_values(|l: String| l@) == packed_lines(entries@.map_values(|e: String| e@)),
{
    let ghost es = entries@.map_values(|e: String| e@);
    let mut lines: Vec<String> = Vec::new();
    let mut cur: Vec<char> = Vec::new();
    assert(es.subrange(0, 0) =~= Seq::<Seq<char>>::empty());
    assert(lines@.map_values(|l: String| l@) =~= seq![]);
    for i in 0..entries.len()
        invariant
            es == entries@.map_values(|e: String| e@),
            (lines@.map_values(|l: String| l@), cur@) == pack_fold(es.subrange(0, i as int)),
    {
        assert(es.subrange(0, i + 1).drop_last() =~= es.subrange(0, i as int));
        assert(es.subrange(0, i + 1).last() == entries@[i as int]@);
        let ghost before = lines@.map_values(|l: String| l@);
        push_str(&mut cur, entries[i].as_str());
        if cur.len() > PACK_WIDTH {
            lines.push(indented(&cur));
            assert(lines@.map_values(|l: String| l@) =~= before.push("  "@ + trim(cur@)));
            cur = Vec::new();
            assert(cur@ =~= seq![]);
        }
    }
    assert(es.subrange(0, entries@.len() as int) =~= es);
    if cur.len() > 0 {
        let ghost before = lines@.map_values(|l: String| l@);
        lines.push(indented(&cur));
        assert(lines@.map_values(|l: String| l@) =~= before.push("  "@ + trim(cur@)));
    }
    lines
}

/// A word-sized report entry: `AAAAAAAA=VVVVVVVV ` in hexadecimal.
pub open spec fn word_entry_spec(addr: u32, value: u32) -> Seq<char> {
    zero_pad(hex_digits(addr as nat), 8) + seq!['='] + zero_pad(hex_digits(value as nat), 8) + seq![' ']
}

/// A word-sized report entry (see [`word_entry_spec`]).
pub fn word_entry(addr: u32, value: u32) -> (s: String)
    ensures
        s@ == word_entry_spec(addr, value),
{
    let mut v: Vec<char> = Vec::new();
    push_hex_padded(&mut v, addr as u64, 8);
    v.push('=');
    push_hex_padded(&mut v, value as u64, 8);
    v.push(' ');
    assert(v@ =~= word_entry_spec(addr, value));
    string_of(&v)
}

/// A half-word report entry at an address: `AAAAAAAA=VVVV ` in hexadecimal.
pub open spec fn half_entry_spec(addr: u32, value: u16) -> Seq<char> {
    zero_pad(hex_digits(addr as nat), 8) + seq!['='] + zero_pad(hex_digits(value as nat), 4) + seq![' ']
}

/// A half-word report entry at an address (see [`half_entry_spec`]).
pub fn half_entry(addr: u32, value: u16) -> (s: String)
    ensures
        s@ == half_entry_spec(addr, value),
{
    let mut v: Vec<char> = Vec::new();
    push_hex_padded(&mut v, addr as u64, 8);
    v.push('=');
    push_hex_padded(&mut v, value as u64, 4);
    v.push(' ');
    assert(v@ =~= half_entry_spec(addr, value));
    string_of(&v)
}

/// A half-word report entry at a struct offset: `+OOO=VVVV ` in hexadecimal.
pub open spec fn offset_entry_spec(offset: u32, value: u16) -> Seq<char> {
    seq!['+'] + zero_pad(hex_digits(offset as nat), 3) + seq!['='] + zero_pad(hex_digits(value as nat), 4) + seq![' ']
}

/// A half-word report entry at a struct offset (see [`offset_entry_spec`]).
pub fn offset_entry(offset: u32, value: u16) -> (s: String)
    ensures
        s@ == offset_entry_spec(offset, value),
{
    let mut v: Vec<char> = Vec::new();
    v.push('+');
    push_hex_padded(&mut v, offset as u64, 3);
    v.push('=');
    push_hex_padded(&mut v, value as u64, 4);
    v.push(' ');
    assert(v@ =~= offset_entry_spec(offset, value));
    string_of(&v)
}

} // verus!
