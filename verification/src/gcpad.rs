//! The emulator's controller configuration (`GCPadNew.ini`): one section per
//! controller port, one `key = value` line per mapped control.

use vstd::prelude::*;
use crate::sorting::{comes_before, is_stable_order, lists, stable_order};
use crate::text::{
    chars_of, chars_eq, contains_chars, contains_seq, dec_digits, find_char, find_chars, find_seq, first_index_of,
    has_prefix, is_ws, lemma_first_index_of, occurs_at, push_chars,
    parse_unsigned, parse_unsigned_spec, push_dec, push_str, slice_chars, string_of, strip_all,
    split_lines, starts_with, strip_all_prefixes, strip_cr, text_lines, trim, trim_end_chars, trim_chars, trim_end, trim_start,
};

verus! {

/// How each GameCube control is bound, in the emulator's notation.
#[derive(Clone, Debug)]
pub struct GCPadMapping {
    pub device: String,
    pub a: String,
    pub b: String,
    pub x: String,
    pub y: String,
    pub z: String,
    pub start: String,
    pub l: String,
    pub r: String,
    pub stick_up: String,
    pub stick_down: String,
    pub stick_left: String,
    pub stick_right: String,
    pub cstick_up: String,
    pub cstick_down: String,
    pub cstick_left: String,
    pub cstick_right: String,
    pub dpad_up: String,
    pub dpad_down: String,
    pub dpad_left: String,
    pub dpad_right: String,
}

/// Number of settings in a mapping.
pub const FIELD_COUNT: usize = 21;

/// The settings of a mapping, in field order.
pub open spec fn fields(m: GCPadMapping) -> Seq<Seq<char>> {
    seq![
        m.device@, m.a@, m.b@, m.x@, m.y@, m.z@, m.start@, m.l@, m.r@, m.stick_up@, m.stick_down@,
        m.stick_left@, m.stick_right@, m.cstick_up@, m.cstick_down@, m.cstick_left@, m.cstick_right@,
        m.dpad_up@, m.dpad_down@, m.dpad_left@, m.dpad_right@,
    ]
}

/// The configuration key of each setting, in field order.
pub open spec fn field_key(i: int) -> Seq<char> {
    if i == 0 {
        "Device"@
    } else if i == 1 {
        "Buttons/A"@
    } else if i == 2 {
        "Buttons/B"@
    } else if i == 3 {
        "Buttons/X"@
    } else if i == 4 {
        "Buttons/Y"@
    } else if i == 5 {
        "Buttons/Z"@
    } else if i == 6 {
        "Buttons/Start"@
    } else if i == 7 {
        "Triggers/L"@
    } else if i == 8 {
        "Triggers/R"@
    } else if i == 9 {
        "Main Stick/Up"@
    } else if i == 10 {
        "Main Stick/Down"@
    } else if i == 11 {
        "Main Stick/Left"@
    } else if i == 12 {
        "Main Stick/Right"@
    } else if i == 13 {
        "C-Stick/Up"@
    } else if i == 14 {
        "C-Stick/Down"@
    } else if i == 15 {
        "C-Stick/Left"@
    } else if i == 16 {
        "C-Stick/Right"@
    } else if i == 17 {
        "D-Pad/Up"@
    } else if i == 18 {
        "D-Pad/Down"@
    } else if i == 19 {
        "D-Pad/Left"@
    } else {
        "D-Pad/Right"@
    }
}

/// The configuration key of setting `i` (see [`field_key`]).
pub fn field_label(i: usize) -> (s: &'static str)
    requires
        i < FIELD_COUNT,
    ensures
        s@ == field_key(i as int),
{
    match i {
        0 => "Device",
        1 => "Buttons/A",
        2 => "Buttons/B",
        3 => "Buttons/X",
        4 => "Buttons/Y",
        5 => "Buttons/Z",
        6 => "Buttons/Start",
        7 => "Triggers/L",
        8 => "Triggers/R",
        9 => "Main Stick/Up",
        10 => "Main Stick/Down",
        11 => "Main Stick/Left",
        12 => "Main Stick/Right",
        13 => "C-Stick/Up",
        14 => "C-Stick/Down",
        15 => "C-Stick/Left",
        16 => "C-Stick/Right",
        17 => "D-Pad/Up",
        18 => "D-Pad/Down",
        19 => "D-Pad/Left",
        _ => "D-Pad/Right",
    }
}

/// The first setting at or after `i` whose key is `key`.
pub open spec fn key_index_from(key: Seq<char>, i: int) -> Option<int>
    decreases 21 - i,
{
    if i < 0 || i >= 21 {
        None
    } else if field_key(i) == key {
        Some(i)
    } else {
        key_index_from(key, i + 1)
    }
}

/// The setting a key names, if any.
pub open spec fn key_index(key: Seq<char>) -> Option<int> {
    key_index_from(key, 0)
}

/// The setting a key names (see [`key_index`]).
fn find_key(key: &Vec<char>) -> (r: Option<usize>)
    ensures
        match r {
            Some(i) => key_index(key@) == Some(i as int) && i < FIELD_COUNT,
            None => key_index(key@) is None,
        },
{
    let mut i: usize = 0;
    while i < FIELD_COUNT
        invariant
            i <= FIELD_COUNT,
            key_index(key@) == key_index_from(key@, i as int),
        decreases FIELD_COUNT - i,
    {
        if chars_eq(key, &chars_of(field_label(i))) {
            return Some(i);
        }
        i += 1;
    }
    None
}

/// The keyboard layout a port has before anything is configured.
pub open spec fn default_fields() -> Seq<Seq<char>> {
    seq![
        "DInput/0/Keyboard Mouse"@, "X"@, "Z"@, "C"@, "S"@, "D"@, "RETURN"@, "Q"@, "W"@, "UP"@, "DOWN"@,
        "LEFT"@, "RIGHT"@, "I"@, "K"@, "J"@, "L"@, "T"@, "G"@, "F"@, "H"@,
    ]
}

impl Default for GCPadMapping {
    fn default() -> (m: Self)
        ensures
            fields(m) == default_fields(),
    {
        GCPadMapping {
            device: String::from_str("DInput/0/Keyboard Mouse"),
            a: String::from_str("X"),
            b: String::from_str("Z"),
            x: String::from_str("C"),
            y: String::from_str("S"),
            z: String::from_str("D"),
            start: String::from_str("RETURN"),
            l: String::from_str("Q"),
            r: String::from_str("W"),
            stick_up: String::from_str("UP"),
            stick_down: String::from_str("DOWN"),
            stick_left: String::from_str("LEFT"),
            stick_right: String::from_str("RIGHT"),
            cstick_up: String::from_str("I"),
            cstick_down: String::from_str("K"),
            cstick_left: String::from_str("J"),
            cstick_right: String::from_str("L"),
            dpad_up: String::from_str("T"),
            dpad_down: String::from_str("G"),
            dpad_left: String::from_str("F"),
            dpad_right: String::from_str("H"),
        }
    }
}

impl GCPadMapping {
    /// Set setting `i`.
    pub fn set_field(&mut self, i: usize, v: String)
        requires
            i < FIELD_COUNT,
        ensures
            fields(*final(self)) == fields(*old(self)).update(i as int, v@),
    {
        match i {
            0 => self.device = v,
            1 => self.a = v,
            2 => self.b = v,
            3 => self.x = v,
            4 => self.y = v,
            5 => self.z = v,
            6 => self.start = v,
            7 => self.l = v,
            8 => self.r = v,
            9 => self.stick_up = v,
            10 => self.stick_down = v,
            11 => self.stick_left = v,
            12 => self.stick_right = v,
            13 => self.cstick_up = v,
            14 => self.cstick_down = v,
            15 => self.cstick_left = v,
            16 => self.cstick_right = v,
            17 => self.dpad_up = v,
            18 => self.dpad_down = v,
            19 => self.dpad_left = v,
            _ => self.dpad_right = v,
        }
        assert(fields(*self) =~= fields(*old(self)).update(i as int, v@));
    }

    /// Setting `i`.
    pub fn field(&self, i: usize) -> (s: &String)
        requires
            i < FIELD_COUNT,
        ensures
            s@ == fields(*self)[i as int],
    {
        match i {
            0 => &self.device,
            1 => &self.a,
            2 => &self.b,
            3 => &self.x,
            4 => &self.y,
            5 => &self.z,
            6 => &self.start,
            7 => &self.l,
            8 => &self.r,
            9 => &self.stick_up,
            10 => &self.stick_down,
            11 => &self.stick_left,
            12 => &self.stick_right,
            13 => &self.cstick_up,
            14 => &self.cstick_down,
            15 => &self.cstick_left,
            16 => &self.cstick_right,
            17 => &self.dpad_up,
            18 => &self.dpad_down,
            19 => &self.dpad_left,
            _ => &self.dpad_right,
        }
    }
}

/// `s` without leading copies of `c`.
pub open spec fn trim_char_start(s: Seq<char>, c: char) -> Seq<char>
    decreases s.len(),
{
    if s.len() > 0 && s[0] == c {
        trim_char_start(s.drop_first(), c)
    } else {
        s
    }
}

/// `s` without trailing copies of `c`.
pub open spec fn trim_char_end(s: Seq<char>, c: char) -> Seq<char>
    decreases s.len(),
{
    if s.len() > 0 && s.last() == c {
        trim_char_end(s.drop_last(), c)
    } else {
        s
    }
}

/// `s` without leading or trailing copies of `c`, as `str::trim_matches` does.
pub open spec fn trim_char(s: Seq<char>, c: char) -> Seq<char> {
    trim_char_end(trim_char_start(s, c), c)
}

proof fn lemma_trim_char_start_skip(s: Seq<char>, c: char, i: int)
    requires
        0 <= i <= s.len(),
        forall|j: int| 0 <= j < i ==> s[j] == c,
    ensures
        trim_char_start(s, c) == trim_char_start(s.subrange(i, s.len() as int), c),
    decreases i,
{
    if i > 0 {
        lemma_trim_char_start_skip(s, c, i - 1);
        assert(s.subrange(i - 1, s.len() as int).drop_first() =~= s.subrange(i, s.len() as int));
    } else {
        assert(s.subrange(0, s.len() as int) =~= s);
    }
}

proof fn lemma_trim_char_end_skip(s: Seq<char>, c: char, i: int)
    requires
        0 <= i <= s.len(),
        forall|j: int| i <= j < s.len() ==> s[j] == c,
    ensures
        trim_char_end(s, c) == trim_char_end(s.subrange(0, i), c),
    decreases s.len() - i,
{
    if i < s.len() {
        lemma_trim_char_end_skip(s, c, i + 1);
        assert(s.subrange(0, i + 1).drop_last() =~= s.subrange(0, i));
    } else {
        assert(s.subrange(0, s.len() as int) =~= s);
    }
}

/// `v` without leading or trailing copies of `c` (see [`trim_char`]).
pub fn trim_char_chars(v: &Vec<char>, c: char) -> (r: Vec<char>)
    ensures
        r@ == trim_char(v@, c),
{
    let n = v.len();
    let mut a: usize = 0;
    while a < n && v[a] == c
        invariant
            a <= n == v@.len(),
            forall|j: int| 0 <= j < a ==> v@[j] == c,
        decreases n - a,
    {
        a += 1;
    }
    proof {
        lemma_trim_char_start_skip(v@, c, a as int);
    }
    let mut b: usize = n;
    while b > a && v[b - 1] == c
        invariant
            a <= b <= n == v@.len(),
            forall|j: int| b <= j < n ==> v@[j] == c,
        decreases b,
    {
        b -= 1;
    }
    let ghost t = v@.subrange(a as int, n as int);
    proof {
        assert(trim_char_start(t, c) == t);
        lemma_trim_char_end_skip(t, c, (b - a) as int);
        assert(t.subrange(0, (b - a) as int) =~= v@.subrange(a as int, b as int));
        let u = v@.subrange(a as int, b as int);
        if u.len() > 0 {
            assert(u.last() != c);
        }
        assert(trim_char_end(u, c) == u);
    }
    slice_chars(v, a, b)
}

/// What a configuration line assigns: for `key = value`, the trimmed key
/// and the trimmed value without surrounding backquotes.
pub open spec fn assignment(line: Seq<char>) -> Option<(Seq<char>, Seq<char>)> {
    let t = trim(line);
    match first_index_of(t, '=') {
        Some(p) => Some(
            (trim(t.subrange(0, p)), trim_char(trim(t.subrange(p + 1, t.len() as int)), '`')),
        ),
        None => None,
    }
}

/// Settings after reading one line: a line assigning a known key sets that
/// setting; any other line changes nothing.
pub open spec fn apply_line(f: Seq<Seq<char>>, line: Seq<char>) -> Seq<Seq<char>> {
    match assignment(line) {
        Some((k, v)) => match key_index(k) {
            Some(i) => f.update(i, v),
            None => f,
        },
        None => f,
    }
}

/// Settings after reading lines in order.
pub open spec fn apply_lines(f: Seq<Seq<char>>, lines: Seq<Seq<char>>) -> Seq<Seq<char>>
    decreases lines.len(),
{
    if lines.len() == 0 {
        f
    } else {
        apply_line(apply_lines(f, lines.drop_last()), lines.last())
    }
}

/// Apply one line to a mapping (see [`apply_line`]).
fn read_line(m: &mut GCPadMapping, line: &Vec<char>)
    ensures
        fields(*final(m)) == apply_line(fields(*old(m)), line@),
{
    let t = trim_chars(line);
    match find_char(&t, '=') {
        Some(p) => {
            let n = t.len();
            let key = trim_chars(&slice_chars(&t, 0, p));
            let value = trim_char_chars(&trim_chars(&slice_chars(&t, p + 1, n)), '`');
            match find_key(&key) {
                Some(i) => m.set_field(i, string_of(&value)),
                None => {},
            }
        },
        None => {},
    }
}

/// The mapping a section's lines describe, starting from the keyboard layout
/// (see [`apply_lines`]).
pub fn parse_section_lines(lines: &Vec<Vec<char>>) -> (m: GCPadMapping)
    ensures
        fields(m) == apply_lines(default_fields(), lines@.map_values(|l: Vec<char>| l@)),
{
    let mut m = GCPadMapping::default();
    let ghost ls = lines@.map_values(|l: Vec<char>| l@);
    assert(ls.subrange(0, 0) =~= Seq::<Seq<char>>::empty());
    for i in 0..lines.len()
        invariant
            ls == lines@.map_values(|l: Vec<char>| l@),
            fields(m) == apply_lines(default_fields(), ls.subrange(0, i as int)),
    {
        assert(ls.subrange(0, i + 1).drop_last() =~= ls.subrange(0, i as int));
        assert(ls.subrange(0, i + 1).last() == lines@[i as int]@);
        read_line(&mut m, &lines[i]);
    }
    assert(ls.subrange(0, lines@.len() as int) =~= ls);
    m
}

/// The mapping a section's lines describe (see [`apply_lines`]).
pub fn parse_gcpad_section(lines: &[&str]) -> (m: GCPadMapping)
    ensures
        fields(m) == apply_lines(default_fields(), lines@.map_values(|l: &str| l@)),
{
    let mut v: Vec<Vec<char>> = Vec::new();
    for i in 0..lines.len()
        invariant
            v@.len() == i,
            forall|j: int| 0 <= j < i ==> v@[j]@ == lines@[j]@,
    {
        v.push(chars_of(lines[i]));
    }
    let m = parse_section_lines(&v);
    assert(v@.map_values(|l: Vec<char>| l@) =~= lines@.map_values(|l: &str| l@));
    m
}


/// A value as written to a section: in backquotes, or empty.
pub open spec fn wrap(v: Seq<char>) -> Seq<char> {
    if v.len() == 0 {
        v
    } else {
        seq!['`'] + v + seq!['`']
    }
}

/// The section header of a port.
pub open spec fn section_header(pad: u32) -> Seq<char> {
    "[GCPad"@ + dec_digits(pad as nat) + "]"@
}

/// The line that writes setting `i`: the device bare, every other value
/// wrapped in backquotes.
pub open spec fn setting_line(i: int, f: Seq<Seq<char>>) -> Seq<char> {
    field_key(i) + " = "@ + (if i == 0 {
        f[0]
    } else {
        wrap(f[i])
    })
}

/// Line `k` of a section: which setting it writes, if any.
pub open spec fn line_field(k: int) -> Option<int> {
    if 1 <= k <= 7 {
        Some(k - 1)
    } else if 8 <= k <= 11 {
        Some(k + 1)
    } else if 14 <= k <= 17 {
        Some(k - 1)
    } else if k == 20 {
        Some(7)
    } else if k == 21 {
        Some(8)
    } else if 22 <= k <= 25 {
        Some(k - 5)
    } else {
        None
    }
}

/// The main stick's modifier line.
pub open spec fn main_modifier_line() -> Seq<char> {
    "Main Stick/Modifier = `Shift`"@
}

/// The main stick's calibration line.
pub open spec fn main_calibration_line() -> Seq<char> {
    "Main Stick/Calibration = 100.00 141.42 100.00 141.42 100.00 141.42 100.00 141.42"@
}

/// The C-stick's modifier line.
pub open spec fn c_modifier_line() -> Seq<char> {
    "C-Stick/Modifier = `Ctrl`"@
}

/// The C-stick's calibration line.
pub open spec fn c_calibration_line() -> Seq<char> {
    "C-Stick/Calibration = 100.00 141.42 100.00 141.42 100.00 141.42 100.00 141.42"@
}

/// Line `k` (0 to 25) of the section for `pad`: the header; device, face
/// buttons and start; the main stick with its modifier and calibration; the
/// C-stick likewise; the triggers; the D-pad.
pub open spec fn section_line(pad: u32, f: Seq<Seq<char>>, k: int) -> Seq<char> {
    if k == 0 {
        section_header(pad)
    } else if k == 12 {
        main_modifier_line()
    } else if k == 13 {
        main_calibration_line()
    } else if k == 18 {
        c_modifier_line()
    } else if k == 19 {
        c_calibration_line()
    } else {
        setting_line(line_field(k).unwrap(), f)
    }
}

/// Number of lines in a section.
pub const SECTION_LINES: usize = 26;

/// The lines of the section for `pad`.
pub open spec fn section_lines(pad: u32, f: Seq<Seq<char>>) -> Seq<Seq<char>> {
    Seq::new(26, |k: int| section_line(pad, f, k))
}

/// Lines joined by line feeds, with none after the last.
pub open spec fn join_lines(ls: Seq<Seq<char>>) -> Seq<char>
    decreases ls.len(),
{
    if ls.len() == 0 {
        seq![]
    } else if ls.len() == 1 {
        ls[0]
    } else {
        join_lines(ls.drop_last()) + seq!['\n'] + ls.last()
    }
}

/// Lines joined by line feeds (see [`join_lines`]).
pub fn join_with_newlines(ls: &Vec<Vec<char>>) -> (r: Vec<char>)
    ensures
        r@ == join_lines(ls@.map_values(|l: Vec<char>| l@)),
{
    let ghost all = ls@.map_values(|l: Vec<char>| l@);
    let mut out: Vec<char> = Vec::new();
    assert(all.subrange(0, 0) =~= Seq::<Seq<char>>::empty());
    for i in 0..ls.len()
        invariant
            all == ls@.map_values(|l: Vec<char>| l@),
            out@ == join_lines(all.subrange(0, i as int)),
    {
        let ghost pre = all.subrange(0, i as int);
        let ghost next = all.subrange(0, i + 1);
        assert(next.drop_last() =~= pre);
        if i > 0 {
            out.push('\n');
        }
        push_chars(&mut out, &ls[i]);
        proof {
            if i == 0 {
                assert(out@ =~= next[0]);
            } else {
                assert(out@ =~= join_lines(pre) + seq!['\n'] + next.last());
            }
        }
    }
    assert(all.subrange(0, ls@.len() as int) =~= all);
    out
}

/// Append `value`, wrapped in backquotes when not empty.
fn push_wrapped(out: &mut Vec<char>, value: &Vec<char>)
    ensures
        final(out)@ == old(out)@ + wrap(value@),
{
    if value.len() == 0 {
        assert(old(out)@ + wrap(value@) =~= old(out)@);
    } else {
        let ghost start = out@;
        out.push('`');
        push_chars(out, value);
        out.push('`');
        assert(out@ =~= start + wrap(value@));
    }
}

/// The line writing setting `i` (see [`setting_line`]).
fn setting_line_chars(i: usize, m: &GCPadMapping) -> (r: Vec<char>)
    requires
        i < FIELD_COUNT,
    ensures
        r@ == setting_line(i as int, fields(*m)),
{
    let mut v: Vec<char> = Vec::new();
    push_str(&mut v, field_label(i));
    push_str(&mut v, " = ");
    let value = chars_of(m.field(i).as_str());
    if i == 0 {
        push_chars(&mut v, &value);
    } else {
        push_wrapped(&mut v, &value);
    }
    v
}

/// Which setting line `k` of a section writes (see [`line_field`]).
fn line_field_of(k: usize) -> (r: usize)
    requires
        k < SECTION_LINES,
        line_field(k as int) is Some,
    ensures
        r == line_field(k as int).unwrap(),
        r < FIELD_COUNT,
{
    if k <= 7 {
        k - 1
    } else if k <= 11 {
        k + 1
    } else if k <= 17 {
        k - 1
    } else if k == 20 {
        7
    } else if k == 21 {
        8
    } else {
        k - 5
    }
}

/// The lines of the section for `pad` (see [`section_lines`]).
pub fn section_line_chars(pad: u32, m: &GCPadMapping) -> (r: Vec<Vec<char>>)
    ensures
        r@.map_values(|l: Vec<char>| l@) == section_lines(pad, fields(*m)),
{
    let mut out: Vec<Vec<char>> = Vec::new();
    for k in 0..SECTION_LINES
        invariant
            out@.len() == k,
            forall|j: int| 0 <= j < k ==> #[trigger] out@[j]@ == section_line(pad, fields(*m), j),
    {
        let line = if k == 0 {
            let mut h: Vec<char> = Vec::new();
            push_str(&mut h, "[GCPad");
            push_dec(&mut h, pad as u64);
            push_str(&mut h, "]");
            h
        } else if k == 12 {
            chars_of("Main Stick/Modifier = `Shift`")
        } else if k == 13 {
            chars_of("Main Stick/Calibration = 100.00 141.42 100.00 141.42 100.00 141.42 100.00 141.42")
        } else if k == 18 {
            chars_of("C-Stick/Modifier = `Ctrl`")
        } else if k == 19 {
            chars_of("C-Stick/Calibration = 100.00 141.42 100.00 141.42 100.00 141.42 100.00 141.42")
        } else {
            setting_line_chars(line_field_of(k), m)
        };
        out.push(line);
    }
    assert(out@.map_values(|l: Vec<char>| l@) =~= section_lines(pad, fields(*m)));
    out
}

/// The text of the section for `pad` (see [`section_lines`]), without a
/// final line feed.
pub fn format_gcpad_section(pad_num: u32, mapping: &GCPadMapping) -> (s: String)
    ensures
        s@ == join_lines(section_lines(pad_num, fields(*mapping))),
{
    string_of(&join_with_newlines(&section_line_chars(pad_num, mapping)))
}


/// A value that reads back as written: empty, or without a backquote at
/// either end.
pub open spec fn writable_value(v: Seq<char>) -> bool {
    v.len() == 0 || (v[0] != '`' && v.last() != '`')
}

/// A device name that reads back as written: a writable value without white
/// space at either end (it is written without backquotes).
pub open spec fn writable_device(v: Seq<char>) -> bool {
    writable_value(v) && (v.len() == 0 || (!is_ws(v[0]) && !is_ws(v.last())))
}

/// Settings that all read back as written.
pub open spec fn writable(f: Seq<Seq<char>>) -> bool {
    &&& f.len() == 21
    &&& writable_device(f[0])
    &&& forall|i: int| 1 <= i < 21 ==> writable_value(#[trigger] f[i])
}

/// A key as the reader sees it: not empty, no white space at its ends, no `=`.
pub open spec fn plain_key(k: Seq<char>) -> bool {
    &&& k.len() > 0
    &&& !is_ws(k[0])
    &&& !is_ws(k.last())
    &&& forall|j: int| 0 <= j < k.len() ==> k[j] != '='
}

/// Every setting's key is plain, and names that setting.
proof fn lemma_field_keys(i: int)
    requires
        0 <= i < 21,
    ensures
        plain_key(field_key(i)),
        key_index(field_key(i)) == Some(i),
        field_key(i)[0] != '[',
        forall|j: int| 0 <= j < field_key(i).len() ==> field_key(i)[j] != '\n',
{
    reveal_strlit("Device");
    reveal_strlit("Buttons/A");
    reveal_strlit("Buttons/B");
    reveal_strlit("Buttons/X");
    reveal_strlit("Buttons/Y");
    reveal_strlit("Buttons/Z");
    reveal_strlit("Buttons/Start");
    reveal_strlit("Triggers/L");
    reveal_strlit("Triggers/R");
    reveal_strlit("Main Stick/Up");
    reveal_strlit("Main Stick/Down");
    reveal_strlit("Main Stick/Left");
    reveal_strlit("Main Stick/Right");
    reveal_strlit("C-Stick/Up");
    reveal_strlit("C-Stick/Down");
    reveal_strlit("C-Stick/Left");
    reveal_strlit("C-Stick/Right");
    reveal_strlit("D-Pad/Up");
    reveal_strlit("D-Pad/Down");
    reveal_strlit("D-Pad/Left");
    reveal_strlit("D-Pad/Right");
    assert forall|m: int, n: int| 0 <= m < n < 21 implies field_key(m) != field_key(n) by {
        assert(field_key(m).len() != field_key(n).len() || field_key(m)[0] != field_key(n)[0]
            || field_key(m)[field_key(m).len() - 1] != field_key(n)[field_key(n).len() - 1]
            || field_key(m)[9] != field_key(n)[9] || field_key(m)[8] != field_key(n)[8]);
    }
    lemma_key_index_skip(field_key(i), 0, i);
}

/// The first key equal to `key` from `j` on is at `i` when none before it is.
proof fn lemma_key_index_skip(key: Seq<char>, j: int, i: int)
    requires
        0 <= j <= i < 21,
        field_key(i) == key,
        forall|m: int| j <= m < i ==> field_key(m) != key,
    ensures
        key_index_from(key, j) == Some(i),
    decreases i - j,
{
    if j < i {
        lemma_key_index_skip(key, j + 1, i);
    }
}

/// No key from `j` on equals `key`.
proof fn lemma_key_index_none(key: Seq<char>, j: int)
    requires
        0 <= j <= 21,
        forall|m: int| j <= m < 21 ==> field_key(m) != key,
    ensures
        key_index_from(key, j) is None,
    decreases 21 - j,
{
    if j < 21 {
        lemma_key_index_none(key, j + 1);
    }
}

/// A key that names no setting.
proof fn lemma_not_a_field(key: Seq<char>)
    requires
        forall|m: int| 0 <= m < 21 ==> field_key(m) != key,
    ensures
        key_index(key) is None,
{
    lemma_key_index_none(key, 0);
}

/// The modifier and calibration keys are plain and name no setting.
proof fn lemma_other_keys()
    ensures
        plain_key("Main Stick/Modifier"@),
        plain_key("Main Stick/Calibration"@),
        plain_key("C-Stick/Modifier"@),
        plain_key("C-Stick/Calibration"@),
        key_index("Main Stick/Modifier"@) is None,
        key_index("Main Stick/Calibration"@) is None,
        key_index("C-Stick/Modifier"@) is None,
        key_index("C-Stick/Calibration"@) is None,
{
    reveal_strlit("Main Stick/Modifier");
    reveal_strlit("Main Stick/Calibration");
    reveal_strlit("C-Stick/Modifier");
    reveal_strlit("C-Stick/Calibration");
    reveal_strlit("Device");
    reveal_strlit("Buttons/A");
    reveal_strlit("Buttons/B");
    reveal_strlit("Buttons/X");
    reveal_strlit("Buttons/Y");
    reveal_strlit("Buttons/Z");
    reveal_strlit("Buttons/Start");
    reveal_strlit("Triggers/L");
    reveal_strlit("Triggers/R");
    reveal_strlit("Main Stick/Up");
    reveal_strlit("Main Stick/Down");
    reveal_strlit("Main Stick/Left");
    reveal_strlit("Main Stick/Right");
    reveal_strlit("C-Stick/Up");
    reveal_strlit("C-Stick/Down");
    reveal_strlit("C-Stick/Left");
    reveal_strlit("C-Stick/Right");
    reveal_strlit("D-Pad/Up");
    reveal_strlit("D-Pad/Down");
    reveal_strlit("D-Pad/Left");
    reveal_strlit("D-Pad/Right");
    assert forall|m: int| 0 <= m < 21 implies field_key(m) != "Main Stick/Modifier"@ by {
        assert(field_key(m).len() != 19 || field_key(m)[0] != 'M');
    }
    assert forall|m: int| 0 <= m < 21 implies field_key(m) != "Main Stick/Calibration"@ by {
        assert(field_key(m).len() != 22);
    }
    assert forall|m: int| 0 <= m < 21 implies field_key(m) != "C-Stick/Modifier"@ by {
        assert(field_key(m).len() != 16 || field_key(m)[0] != 'C');
    }
    assert forall|m: int| 0 <= m < 21 implies field_key(m) != "C-Stick/Calibration"@ by {
        assert(field_key(m).len() != 19);
    }
    lemma_not_a_field("Main Stick/Modifier"@);
    lemma_not_a_field("Main Stick/Calibration"@);
    lemma_not_a_field("C-Stick/Modifier"@);
    lemma_not_a_field("C-Stick/Calibration"@);
}


/// A key followed by one white space reads back as the key.
proof fn lemma_trim_key_space(key: Seq<char>)
    requires
        plain_key(key),
    ensures
        trim(key + seq![' ']) == key,
{
    let ks = key + seq![' '];
    assert(trim_start(ks) == ks);
    assert(ks.drop_last() =~= key);
    assert(trim_end(ks) == trim_end(key));
    assert(trim_start(key) == key);
}

/// A text without white space at its ends is its own trim.
proof fn lemma_trim_plain(w: Seq<char>)
    requires
        w.len() == 0 || (!is_ws(w[0]) && !is_ws(w.last())),
    ensures
        trim(w) == w,
{
    assert(trim_start(w) == w);
    assert(trim_end(w) == w);
}

/// What the reader takes from `key = w`: the key, and `w` without
/// surrounding backquotes.
#[verifier::spinoff_prover]
#[verifier::rlimit(40)]
proof fn lemma_kv_assignment(key: Seq<char>, w: Seq<char>)
    requires
        plain_key(key),
        w.len() == 0 || (!is_ws(w[0]) && !is_ws(w.last())),
    ensures
        assignment(key + " = "@ + w) == Some((key, trim_char(w, '`'))),
{
    reveal_strlit(" = ");
    let line = key + " = "@ + w;
    let p: int = key.len() + 1int;
    lemma_trim_key_space(key);
    lemma_trim_plain(w);
    if w.len() > 0 {
        assert(trim_start(line) == line);
        assert(trim_end(line) == line);
        assert(trim(line) == line);
        assert forall|j: int| 0 <= j < p implies line[j] != '=' by {
            if j < key.len() {
                assert(line[j] == key[j]);
            }
        }
        lemma_first_index_of(line, '=', p);
        assert(line.subrange(0, p) =~= key + seq![' ']);
        let rest = line.subrange(p + 1, line.len() as int);
        assert(rest =~= seq![' '] + w);
        assert(rest.drop_first() =~= w);
        assert(trim_start(rest) == trim_start(w));
        assert(trim(rest) == w);
    } else {
        let t = key + seq![' ', '='];
        assert(line.drop_last() =~= t);
        assert(trim_start(line) == line);
        assert(trim_end(line) == trim_end(t));
        assert(trim_end(t) == t);
        assert(trim(line) == t);
        assert forall|j: int| 0 <= j < p implies t[j] != '=' by {
            if j < key.len() {
                assert(t[j] == key[j]);
            }
        }
        lemma_first_index_of(t, '=', p);
        assert(t.subrange(0, p) =~= key + seq![' ']);
        assert(t.subrange(p + 1, t.len() as int) =~= w);
    }
}


/// A setting's line reads back as the setting's key and value.
proof fn lemma_setting_line(i: int, f: Seq<Seq<char>>)
    requires
        0 <= i < 21,
        writable(f),
    ensures
        assignment(setting_line(i, f)) == Some((field_key(i), f[i])),
{
    lemma_field_keys(i);
    let v = f[i];
    if i == 0 {
        assert(trim_char_start(v, '`') == v);
        assert(trim_char_end(v, '`') == v);
        lemma_kv_assignment(field_key(0), v);
    } else {
        assert(writable_value(f[i]));
        let w = wrap(v);
        if v.len() > 0 {
            let vt = v + seq!['`'];
            assert(w.drop_first() =~= vt);
            assert(trim_char_start(w, '`') == trim_char_start(vt, '`'));
            assert(vt[0] == v[0]);
            assert(trim_char_start(vt, '`') == vt);
            assert(vt.drop_last() =~= v);
            assert(trim_char_end(vt, '`') == trim_char_end(v, '`'));
            assert(trim_char_end(v, '`') == v);
        }
        lemma_kv_assignment(field_key(i), w);
    }
}

/// The decimal digits of a number are digit characters.
proof fn lemma_dec_digits_no_equals(n: nat)
    ensures
        forall|j: int| 0 <= j < dec_digits(n).len() ==> dec_digits(n)[j] != '=',
    decreases n,
{
    if n >= 10 {
        lemma_dec_digits_no_equals(n / 10);
        let d = dec_digits(n / 10);
        assert(dec_digits(n) == d.push(crate::text::digit_char((n % 10) as int)));
    }
}

/// A section header assigns nothing.
proof fn lemma_header_line(pad: u32)
    ensures
        assignment(section_header(pad)) is None,
        trim(section_header(pad)) == section_header(pad),
        opens_section(section_header(pad)),
{
    reveal_strlit("[GCPad");
    reveal_strlit("]");
    let h = section_header(pad);
    lemma_dec_digits_no_equals(pad as nat);
    assert(trim_start(h) == h);
    assert(trim_end(h) == h);
    assert forall|j: int| 0 <= j < h.len() implies h[j] != '=' by {
        let d = dec_digits(pad as nat);
        if 6 <= j < 6 + d.len() {
            assert(h[j] == d[j - 6]);
        }
    }
}

/// The fixed lines name no setting, so reading them changes nothing.
proof fn lemma_fixed_lines(g: Seq<Seq<char>>)
    ensures
        apply_line(g, main_modifier_line()) == g,
        apply_line(g, main_calibration_line()) == g,
        apply_line(g, c_modifier_line()) == g,
        apply_line(g, c_calibration_line()) == g,
{
    lemma_other_keys();
    reveal_strlit(" = ");
    reveal_strlit("`Shift`");
    reveal_strlit("`Ctrl`");
    reveal_strlit("100.00 141.42 100.00 141.42 100.00 141.42 100.00 141.42");
    reveal_strlit("Main Stick/Modifier");
    reveal_strlit("Main Stick/Calibration");
    reveal_strlit("C-Stick/Modifier");
    reveal_strlit("C-Stick/Calibration");
    reveal_strlit("Main Stick/Modifier = `Shift`");
    reveal_strlit("Main Stick/Calibration = 100.00 141.42 100.00 141.42 100.00 141.42 100.00 141.42");
    reveal_strlit("C-Stick/Modifier = `Ctrl`");
    reveal_strlit("C-Stick/Calibration = 100.00 141.42 100.00 141.42 100.00 141.42 100.00 141.42");
    let cal = "100.00 141.42 100.00 141.42 100.00 141.42 100.00 141.42"@;
    assert(main_modifier_line() =~= "Main Stick/Modifier"@ + " = "@ + "`Shift`"@);
    assert(main_calibration_line() =~= "Main Stick/Calibration"@ + " = "@ + cal);
    assert(c_modifier_line() =~= "C-Stick/Modifier"@ + " = "@ + "`Ctrl`"@);
    assert(c_calibration_line() =~= "C-Stick/Calibration"@ + " = "@ + cal);
    lemma_kv_assignment("Main Stick/Modifier"@, "`Shift`"@);
    lemma_kv_assignment("Main Stick/Calibration"@, cal);
    lemma_kv_assignment("C-Stick/Modifier"@, "`Ctrl`"@);
    lemma_kv_assignment("C-Stick/Calibration"@, cal);
}

/// The line of a section that writes setting `i`.
pub open spec fn slot_line(i: int) -> int {
    if i <= 6 {
        i + 1
    } else if i == 7 {
        20
    } else if i == 8 {
        21
    } else if i <= 12 {
        i - 1
    } else if i <= 16 {
        i + 1
    } else {
        i + 5
    }
}

/// The settings after reading the first `k` lines of a section written from `f`.
pub open spec fn partly_read(f: Seq<Seq<char>>, k: int) -> Seq<Seq<char>> {
    Seq::new(21, |i: int| if slot_line(i) < k { f[i] } else { default_fields()[i] })
}

/// Reading a section line by line sets each setting when its line comes.
#[verifier::rlimit(40)]
proof fn lemma_read_prefix(pad: u32, f: Seq<Seq<char>>, k: int)
    requires
        writable(f),
        0 <= k <= 26,
    ensures
        apply_lines(default_fields(), section_lines(pad, f).subrange(0, k)) == partly_read(f, k),
    decreases k,
{
    let ls = section_lines(pad, f);
    if k == 0 {
        assert(ls.subrange(0, 0).len() == 0);
        assert(partly_read(f, 0) =~= default_fields());
    } else {
        lemma_read_prefix(pad, f, k - 1);
        assert(ls.subrange(0, k).drop_last() =~= ls.subrange(0, k - 1));
        assert(ls.subrange(0, k).last() == section_line(pad, f, k - 1));
        let g = partly_read(f, k - 1);
        let line = section_line(pad, f, k - 1);
        if k - 1 == 0 {
            lemma_header_line(pad);
            assert(partly_read(f, k) =~= g);
        } else if k - 1 == 12 || k - 1 == 13 || k - 1 == 18 || k - 1 == 19 {
            lemma_fixed_lines(g);
            assert(partly_read(f, k) =~= g);
        } else {
            let i = line_field(k - 1).unwrap();
            lemma_setting_line(i, f);
            lemma_field_keys(i);
            assert(apply_line(g, line) == g.update(i, f[i]));
            assert(partly_read(f, k) =~= g.update(i, f[i]));
        }
    }
}

/// Reading back the lines of a written section gives the settings written,
/// when each value reads back as written (see [`writable`]).
pub proof fn lemma_section_round_trip(pad: u32, m: GCPadMapping)
    requires
        writable(fields(m)),
    ensures
        apply_lines(default_fields(), section_lines(pad, fields(m))) == fields(m),
{
    let f = fields(m);
    lemma_read_prefix(pad, f, 26);
    assert(section_lines(pad, f).subrange(0, 26) =~= section_lines(pad, f));
    assert(partly_read(f, 26) =~= f);
}


/// Whether a line opens a section: it starts with `[`.
pub open spec fn opens_section(l: Seq<char>) -> bool {
    l.len() > 0 && l[0] == '['
}

/// The lines from the start up to, not including, the next section.
pub open spec fn until_next_section(ls: Seq<Seq<char>>) -> Seq<Seq<char>>
    decreases ls.len(),
{
    if ls.len() == 0 || opens_section(ls[0]) {
        seq![]
    } else {
        seq![ls[0]] + until_next_section(ls.drop_first())
    }
}

/// The index of the first line at or after `j` that opens a section and
/// reads as `header` once trimmed.
pub open spec fn header_at(ls: Seq<Seq<char>>, header: Seq<char>, j: int) -> Option<int>
    decreases ls.len() - j,
{
    if j < 0 || j >= ls.len() {
        None
    } else if opens_section(ls[j]) && trim(ls[j]) == header {
        Some(j)
    } else {
        header_at(ls, header, j + 1)
    }
}

/// The body of the section titled `header`: the lines after its header up
/// to the next section; none when there is no such section.
pub open spec fn section_body(ls: Seq<Seq<char>>, header: Seq<char>) -> Seq<Seq<char>> {
    match header_at(ls, header, 0) {
        Some(h) => until_next_section(ls.subrange(h + 1, ls.len() as int)),
        None => seq![],
    }
}

/// The mapping configured for `pad` in a configuration file's text: its
/// section read over the keyboard layout, or the keyboard layout itself.
pub open spec fn mapping_for_pad_spec(content: Seq<char>, pad: u32) -> Seq<Seq<char>> {
    apply_lines(default_fields(), section_body(text_lines(content), section_header(pad)))
}

/// The first line that opens a section titled `header` (see [`header_at`]).
fn find_header(ls: &Vec<Vec<char>>, header: &Vec<char>) -> (r: Option<usize>)
    ensures
        header_at(ls@.map_values(|l: Vec<char>| l@), header@, 0) == match r {
            Some(h) => Some(h as int),
            None => None::<int>,
        },
        r matches Some(h) ==> h < ls@.len(),
{
    let ghost all = ls@.map_values(|l: Vec<char>| l@);
    let n = ls.len();
    for h in 0..n
        invariant
            n == ls@.len(),
            all == ls@.map_values(|l: Vec<char>| l@),
            header_at(all, header@, 0) == header_at(all, header@, h as int),
    {
        assert(all[h as int] == ls@[h as int]@);
        if ls[h].len() > 0 && ls[h][0] == '[' && chars_eq(&trim_chars(&ls[h]), header) {
            return Some(h);
        }
    }
    None
}

/// The section body of `header` in `ls` (see [`section_body`]).
pub fn find_section_body(ls: &Vec<Vec<char>>, header: &Vec<char>) -> (r: Vec<Vec<char>>)
    ensures
        r@.map_values(|l: Vec<char>| l@) == section_body(ls@.map_values(|l: Vec<char>| l@), header@),
{
    let ghost all = ls@.map_values(|l: Vec<char>| l@);
    let n = ls.len();
    let mut out: Vec<Vec<char>> = Vec::new();
    let h = match find_header(ls, header) {
        Some(h) => h,
        None => {
            assert(out@.map_values(|l: Vec<char>| l@) =~= seq![]);
            return out;
        },
    };
    let ghost rest = all.subrange(h + 1, n as int);
    let mut k = h + 1;
    assert(rest.subrange(0, rest.len() as int) =~= rest);
    assert(out@.map_values(|l: Vec<char>| l@) =~= seq![]);
    while k < n
        invariant
            h < k <= n == ls@.len(),
            all == ls@.map_values(|l: Vec<char>| l@),
            rest == all.subrange(h + 1, n as int),
            header_at(all, header@, 0) == Some(h as int),
            out@.map_values(|l: Vec<char>| l@) + until_next_section(all.subrange(k as int, n as int))
                == until_next_section(rest),
        decreases n - k,
    {
        let ghost t = all.subrange(k as int, n as int);
        assert(t[0] == ls@[k as int]@);
        if ls[k].len() > 0 && ls[k][0] == '[' {
            assert(until_next_section(t) =~= seq![]);
            assert(out@.map_values(|l: Vec<char>| l@) + seq![] =~= out@.map_values(|l: Vec<char>| l@));
            return out;
        }
        let ghost before = out@.map_values(|l: Vec<char>| l@);
        let line = slice_chars(&ls[k], 0, ls[k].len());
        assert(line@ =~= ls@[k as int]@);
        out.push(line);
        assert(out@.map_values(|l: Vec<char>| l@) =~= before.push(t[0]));
        assert(t.drop_first() =~= all.subrange(k + 1, n as int));
        assert(before.push(t[0]) + until_next_section(all.subrange(k + 1, n as int)) =~= before
            + until_next_section(t));
        k += 1;
    }
    assert(until_next_section(all.subrange(n as int, n as int)) =~= seq![]) by {
        assert(all.subrange(n as int, n as int).len() == 0);
    }
    assert(out@.map_values(|l: Vec<char>| l@) + seq![] =~= out@.map_values(|l: Vec<char>| l@));
    out
}

/// The mapping configured for `pad` in a configuration file's text (see
/// [`mapping_for_pad_spec`]).
pub fn mapping_for_pad(content: &str, pad: u32) -> (m: GCPadMapping)
    ensures
        fields(m) == mapping_for_pad_spec(content@, pad),
{
    let lines = split_lines(&chars_of(content));
    let mut header: Vec<char> = Vec::new();
    push_str(&mut header, "[GCPad");
    push_dec(&mut header, pad as u64);
    push_str(&mut header, "]");
    let body = find_section_body(&lines, &header);
    parse_section_lines(&body)
}


/// Joining splits off the first line.
proof fn lemma_join_front(ls: Seq<Seq<char>>)
    requires
        ls.len() >= 2,
    ensures
        join_lines(ls) == ls[0] + seq!['\n'] + join_lines(ls.drop_first()),
    decreases ls.len(),
{
    if ls.len() == 2 {
        assert(ls.drop_first().len() == 1);
        assert(ls.drop_last().len() == 1);
        assert(join_lines(ls.drop_last()) == ls[0]);
        assert(join_lines(ls.drop_first()) == ls[1]);
    } else {
        let a = ls[0];
        lemma_join_front(ls.drop_last());
        assert(ls.drop_last()[0] == a);
        assert(ls.drop_last().drop_first() =~= ls.drop_first().drop_last());
        assert(ls.drop_first().last() == ls.last());
        let mid = join_lines(ls.drop_first().drop_last());
        assert(join_lines(ls.drop_first()) == mid + seq!['\n'] + ls.last());
        assert(join_lines(ls) == (a + seq!['\n'] + mid) + seq!['\n'] + ls.last());
        assert((a + seq!['\n'] + mid) + seq!['\n'] + ls.last() =~= a + seq!['\n'] + (mid + seq!['\n'] + ls.last()));
    }
}

/// Lines that hold no line feed and do not end in a carriage return, the
/// last not empty, are the lines of their joined text.
proof fn lemma_text_lines_join(ls: Seq<Seq<char>>)
    requires
        ls.len() >= 1,
        forall|i: int, j: int| 0 <= i < ls.len() && 0 <= j < ls[i].len() ==> ls[i][j] != '\n',
        forall|i: int| 0 <= i < ls.len() ==> !(ls[i].len() > 0 && #[trigger] ls[i].last() == '\r'),
        ls.last().len() > 0,
    ensures
        text_lines(join_lines(ls)) == ls,
    decreases ls.len(),
{
    if ls.len() == 1 {
        let s = ls[0];
        assert(join_lines(ls) == s);
        crate::text::lemma_line_len_run(s, 0, s.len() as int);
        assert(s.subrange(0, s.len() as int) =~= s);
        assert(text_lines(s) =~= ls);
    } else {
        lemma_join_front(ls);
        let a = ls[0];
        let rest = ls.drop_first();
        lemma_text_lines_join(rest);
        let s = a + seq!['\n'] + join_lines(rest);
        crate::text::lemma_line_len_run(s, 0, a.len() as int);
        assert(s.subrange(0, s.len() as int) =~= s);
        assert(s.subrange(0, a.len() as int) =~= a);
        assert(s.subrange(a.len() + 1int, s.len() as int) =~= join_lines(rest));
        assert(strip_cr(a) == a);
        assert(text_lines(s) =~= seq![a] + rest);
        assert(seq![a] + rest =~= ls);
    }
}

/// Reading lines after a first one that assigns nothing is reading them all.
proof fn lemma_apply_after_first(f: Seq<Seq<char>>, ls: Seq<Seq<char>>)
    requires
        ls.len() >= 1,
    ensures
        apply_lines(f, ls) == apply_lines(apply_line(f, ls[0]), ls.drop_first()),
    decreases ls.len(),
{
    if ls.len() > 1 {
        lemma_apply_after_first(f, ls.drop_last());
        assert(ls.drop_last()[0] == ls[0]);
        assert(ls.drop_last().drop_first() =~= ls.drop_first().drop_last());
        assert(ls.drop_first().last() == ls.last());
        let g = apply_line(f, ls[0]);
        assert(apply_lines(g, ls.drop_first()) == apply_line(apply_lines(g, ls.drop_first().drop_last()), ls.last()));
    } else {
        assert(ls.drop_first().len() == 0);
        assert(ls.drop_last().len() == 0);
        assert(ls.last() == ls[0]);
        assert(apply_lines(f, ls.drop_last()) == f);
    }
}

/// Lines none of which opens a section run to the end.
proof fn lemma_no_section(ls: Seq<Seq<char>>)
    requires
        forall|i: int| 0 <= i < ls.len() ==> !opens_section(#[trigger] ls[i]),
    ensures
        until_next_section(ls) == ls,
    decreases ls.len(),
{
    if ls.len() > 0 {
        lemma_no_section(ls.drop_first());
        assert(seq![ls[0]] + ls.drop_first() =~= ls);
    }
}

/// Settings none of which holds a line feed.
pub open spec fn single_line(f: Seq<Seq<char>>) -> bool {
    forall|i: int, j: int| 0 <= i < f.len() && 0 <= j < f[i].len() ==> f[i][j] != '\n'
}

/// What every line of a written section is like: no line feed, no final
/// carriage return, and only the first opens a section.
proof fn lemma_section_line_shape(pad: u32, f: Seq<Seq<char>>, k: int)
    requires
        writable(f),
        single_line(f),
        0 <= k < 26,
    ensures
        forall|j: int| 0 <= j < section_line(pad, f, k).len() ==> section_line(pad, f, k)[j] != '\n',
        !(section_line(pad, f, k).len() > 0 && section_line(pad, f, k).last() == '\r'),
        section_line(pad, f, k).len() > 0,
        k > 0 ==> !opens_section(section_line(pad, f, k)),
{
    reveal_strlit(" = ");
    let l = section_line(pad, f, k);
    if k == 0 {
        reveal_strlit("[GCPad");
        reveal_strlit("]");
        lemma_dec_digits_no_newline(pad as nat);
        assert forall|j: int| 0 <= j < l.len() implies l[j] != '\n' by {
            let d = dec_digits(pad as nat);
            if 6 <= j < 6 + d.len() {
                assert(l[j] == d[j - 6]);
            }
        }
    } else if k == 12 || k == 13 || k == 18 || k == 19 {
        reveal_strlit("Main Stick/Modifier = `Shift`");
        reveal_strlit("Main Stick/Calibration = 100.00 141.42 100.00 141.42 100.00 141.42 100.00 141.42");
        reveal_strlit("C-Stick/Modifier = `Ctrl`");
        reveal_strlit("C-Stick/Calibration = 100.00 141.42 100.00 141.42 100.00 141.42 100.00 141.42");
    } else {
        let i = line_field(k).unwrap();
        lemma_field_keys(i);
        let key = field_key(i);
        let w = if i == 0 { f[0] } else { wrap(f[i]) };
        assert(l == key + " = "@ + w);
        assert forall|j: int| 0 <= j < l.len() implies l[j] != '\n' by {
            if j < key.len() {
                assert(l[j] == key[j]);
            } else if j >= key.len() + 3 {
                assert(l[j] == w[j - key.len() - 3]);
                if i != 0 && f[i].len() > 0 && 1 <= j - key.len() - 3 <= f[i].len() {
                    assert(w[j - key.len() - 3] == f[i][j - key.len() - 4]);
                }
            }
        }
        assert(l[0] == key[0]);
        if w.len() > 0 {
            assert(l.last() == w.last());
        }
    }
}

/// The decimal digits of a number hold no line feed.
proof fn lemma_dec_digits_no_newline(n: nat)
    ensures
        forall|j: int| 0 <= j < dec_digits(n).len() ==> dec_digits(n)[j] != '\n',
    decreases n,
{
    if n >= 10 {
        lemma_dec_digits_no_newline(n / 10);
        let d = dec_digits(n / 10);
        assert(dec_digits(n) == d.push(crate::text::digit_char((n % 10) as int)));
    }
}

/// Reading the text of a written section back gives the mapping written,
/// when each value reads back as written and none holds a line feed.
pub proof fn lemma_written_section_reads_back(pad: u32, m: GCPadMapping)
    requires
        writable(fields(m)),
        single_line(fields(m)),
    ensures
        mapping_for_pad_spec(join_lines(section_lines(pad, fields(m))), pad) == fields(m),
{
    let f = fields(m);
    let ls = section_lines(pad, f);
    assert forall|k: int| 0 <= k < 26 implies {
        &&& forall|j: int| 0 <= j < ls[k].len() ==> ls[k][j] != '\n'
        &&& !(ls[k].len() > 0 && ls[k].last() == '\r')
        &&& ls[k].len() > 0
        &&& k > 0 ==> !opens_section(ls[k])
    } by {
        lemma_section_line_shape(pad, f, k);
    }
    lemma_text_lines_join(ls);
    lemma_header_line(pad);
    reveal_strlit("[GCPad");
    assert(opens_section(ls[0]));
    assert(trim(ls[0]) == section_header(pad));
    assert(header_at(ls, section_header(pad), 0) == Some(0int));
    assert(ls.subrange(1, 26) =~= ls.drop_first());
    assert forall|i: int| 0 <= i < ls.drop_first().len() implies !opens_section(#[trigger] ls.drop_first()[i]) by {
        assert(ls.drop_first()[i] == ls[i + 1]);
    }
    lemma_no_section(ls.drop_first());
    lemma_apply_after_first(default_fields(), ls);
    assert(apply_line(default_fields(), ls[0]) == default_fields());
    lemma_section_round_trip(pad, m);
}


/// The section of a port left on the keyboard.
pub open spec fn keyboard_section(pad: u32) -> Seq<char> {
    section_header(pad) + "\nDevice = DInput/0/Keyboard Mouse"@
}

/// Append a keyboard-only section.
pub fn push_keyboard_section(out: &mut Vec<char>, pad: u32)
    ensures
        final(out)@ == old(out)@ + keyboard_section(pad),
{
    let ghost start = out@;
    push_str(out, "[GCPad");
    push_dec(out, pad as u64);
    push_str(out, "]");
    push_str(out, "\nDevice = DInput/0/Keyboard Mouse");
    assert(out@ =~= start + keyboard_section(pad));
}

/// The port number in a `[GCPad<n>]` text: after any number of `[GCPad`
/// prefixes and before any number of `]` suffixes, a `u32`.
pub open spec fn pad_number(t: Seq<char>) -> Option<u32> {
    match parse_unsigned_spec(trim_char_end(strip_all(t, "[GCPad"@), ']'), 10, u32::MAX as nat) {
        Some(v) => Some(v as u32),
        None => None,
    }
}

/// The port number of a `[GCPad<n>]` text (see [`pad_number`]).
fn pad_number_of(t: &Vec<char>) -> (r: Option<u32>)
    ensures
        r == pad_number(t@),
{
    let stripped = strip_all_prefixes(t, &chars_of("[GCPad"));
    let n = stripped.len();
    let mut b = n;
    assert(stripped@.subrange(0, n as int) =~= stripped@);
    while b > 0 && stripped[b - 1] == ']'
        invariant
            b <= n == stripped@.len(),
            trim_char_end(stripped@, ']') == trim_char_end(stripped@.subrange(0, b as int), ']'),
        decreases b,
    {
        assert(stripped@.subrange(0, b as int).drop_last() =~= stripped@.subrange(0, b - 1));
        b -= 1;
    }
    let digits = slice_chars(&stripped, 0, b);
    assert(trim_char_end(digits@, ']') == digits@);
    match parse_unsigned(&digits, 10, u32::MAX as u64) {
        Some(v) => Some(v as u32),
        None => None,
    }
}

/// The port number a line opens a section for: the line starts with
/// `[GCPad`, ends with `]`, and holds a number (see [`pad_number`]).
pub open spec fn header_number(line: Seq<char>) -> Option<u32> {
    if has_prefix(line, "[GCPad"@) && line.len() > 0 && line.last() == ']' {
        pad_number(line)
    } else {
        None
    }
}

/// The port numbers of a file's sections, in order.
pub open spec fn section_numbers(ls: Seq<Seq<char>>) -> Seq<u32>
    decreases ls.len(),
{
    if ls.len() == 0 {
        seq![]
    } else {
        section_numbers(ls.drop_last()) + match header_number(ls.last()) {
            Some(n) => seq![n],
            None => seq![],
        }
    }
}

/// Where a copied section starts: at the first occurrence of its header,
/// or at the start when there is none.
pub open spec fn copy_start(content: Seq<char>, h: Seq<char>) -> int {
    match find_seq(content, h) {
        Some(i) => i,
        None => 0,
    }
}

/// Where a copied section ends: at the first line feed after `after` that
/// is followed by `[GCPad`, or at the end.
pub open spec fn copy_end(content: Seq<char>, after: int) -> int {
    match find_seq(content.subrange(after, content.len() as int), "\n[GCPad"@) {
        Some(i) => after + i,
        None => content.len() as int,
    }
}

/// The text of section `num` as it stands in `content`: from the first
/// `[GCPad<num>]` (or the start, when there is none) up to the next line that
/// begins `[GCPad` (or the end), without trailing white space.
pub open spec fn copied_section(content: Seq<char>, num: u32) -> Seq<char> {
    let h = section_header(num);
    let start = copy_start(content, h);
    let after = if start + h.len() <= content.len() { start + h.len() } else { content.len() as int };
    trim_end(content.subrange(start, copy_end(content, after)))
}

/// The sections kept when port `pad`'s section is replaced by `new_section`:
/// each existing section in order, `pad`'s replaced, and `new_section` at the
/// end when `pad` had none.
pub open spec fn kept_sections(content: Seq<char>, nums: Seq<u32>, pad: u32, new_section: Seq<char>) -> Seq<Seq<char>> {
    Seq::new(nums.len(), |i: int| if nums[i] == pad { new_section } else { copied_section(content, nums[i]) })
        + (if nums.contains(pad) {
        seq![]
    } else {
        seq![new_section]
    })
}

/// Whether some section text mentions port `p`'s header.
pub open spec fn mentions_pad(parts: Seq<Seq<char>>, p: u32) -> bool {
    exists|i: int| 0 <= i < parts.len() && contains_seq(parts[i], section_header(p))
}

/// `parts` with a keyboard section for port `p` added when none mentions it.
pub open spec fn add_default_section(parts: Seq<Seq<char>>, p: u32) -> Seq<Seq<char>> {
    if mentions_pad(parts, p) {
        parts
    } else {
        parts.push(keyboard_section(p))
    }
}

/// `parts` with keyboard sections added for the ports 1 to 4 none mentions.
pub open spec fn with_default_sections(parts: Seq<Seq<char>>) -> Seq<Seq<char>> {
    add_default_section(add_default_section(add_default_section(add_default_section(parts, 1), 2), 3), 4)
}

/// The key sections are ordered by: the port number of their first line, 0
/// when it has none.
pub open spec fn section_key(part: Seq<char>) -> u32 {
    let ls = text_lines(part);
    if ls.len() == 0 {
        0
    } else {
        match pad_number(ls[0]) {
            Some(n) => n,
            None => 0,
        }
    }
}

/// The saved configuration text for given sections in a given order: joined
/// by line feeds, with a final one.
pub open spec fn render_sections(parts: Seq<Seq<char>>, order: Seq<usize>) -> Seq<char> {
    join_lines(Seq::new(order.len(), |k: int| parts[order[k] as int])) + seq!['\n']
}


/// The port numbers of lines' sections (see [`section_numbers`]).
fn section_numbers_of(lines: &Vec<Vec<char>>) -> (r: Vec<u32>)
    ensures
        r@ == section_numbers(lines@.map_values(|l: Vec<char>| l@)),
{
    let ghost ls = lines@.map_values(|l: Vec<char>| l@);
    let prefix = chars_of("[GCPad");
    let mut out: Vec<u32> = Vec::new();
    assert(ls.subrange(0, 0) =~= Seq::<Seq<char>>::empty());
    for i in 0..lines.len()
        invariant
            ls == lines@.map_values(|l: Vec<char>| l@),
            prefix@ == "[GCPad"@,
            out@ == section_numbers(ls.subrange(0, i as int)),
    {
        let ghost before = out@;
        assert(ls.subrange(0, i + 1).drop_last() =~= ls.subrange(0, i as int));
        assert(ls.subrange(0, i + 1).last() == lines@[i as int]@);
        let line = &lines[i];
        let n = line.len();
        if starts_with(line, &prefix) && n > 0 && line[n - 1] == ']' {
            match pad_number_of(line) {
                Some(v) => out.push(v),
                None => {},
            }
        }
        assert(out@ =~= section_numbers(ls.subrange(0, i + 1)));
    }
    assert(ls.subrange(0, lines@.len() as int) =~= ls);
    out
}

/// The text of section `num` as it stands in `content` (see [`copied_section`]).
/// Where a copied section starts (see [`copy_start`]).
fn copy_start_of(content: &Vec<char>, h: &Vec<char>) -> (start: usize)
    ensures
        start == copy_start(content@, h@),
        start <= content@.len(),
{
    match find_chars(content, h) {
        Some(i) => i,
        None => 0,
    }
}

/// Where a copied section ends (see [`copy_end`]).
fn copy_end_of(content: &Vec<char>, after: usize) -> (end: usize)
    requires
        after <= content@.len(),
    ensures
        end == copy_end(content@, after as int),
        after <= end <= content@.len(),
{
    let n = content.len();
    let rest = slice_chars(content, after, n);
    let pat = chars_of("\n[GCPad");
    match find_chars(&rest, &pat) {
        Some(i) => after + i,
        None => n,
    }
}

/// The text of section `num` as it stands in `content` (see [`copied_section`]).
fn copied_section_of(content: &Vec<char>, num: u32) -> (r: Vec<char>)
    ensures
        r@ == copied_section(content@, num),
{
    let n = content.len();
    let mut h: Vec<char> = Vec::new();
    push_str(&mut h, "[GCPad");
    push_dec(&mut h, num as u64);
    push_str(&mut h, "]");
    assert(h@ == section_header(num));
    let start = copy_start_of(content, &h);
    let after: usize = if h.len() <= n - start { start + h.len() } else { n };
    let end = copy_end_of(content, after);
    trim_end_chars(&slice_chars(content, start, end))
}

/// A copy of a character vector.
fn copy_chars(v: &Vec<char>) -> (r: Vec<char>)
    ensures
        r@ == v@,
{
    slice_chars(v, 0, v.len())
}

/// Whether some section text mentions port `p`'s header (see [`mentions_pad`]).
fn mentions_pad_of(parts: &Vec<Vec<char>>, p: u32) -> (b: bool)
    ensures
        b == mentions_pad(parts@.map_values(|l: Vec<char>| l@), p),
{
    let ghost ps = parts@.map_values(|l: Vec<char>| l@);
    let mut h: Vec<char> = Vec::new();
    push_str(&mut h, "[GCPad");
    push_dec(&mut h, p as u64);
    push_str(&mut h, "]");
    for i in 0..parts.len()
        invariant
            ps == parts@.map_values(|l: Vec<char>| l@),
            h@ == section_header(p),
            forall|j: int| 0 <= j < i ==> !contains_seq(ps[j], section_header(p)),
    {
        if contains_chars(&parts[i], &h) {
            assert(contains_seq(ps[i as int], section_header(p)));
            return true;
        }
    }
    false
}

/// The ordering key of a section text (see [`section_key`]).
fn section_key_of(part: &Vec<char>) -> (k: u32)
    ensures
        k == section_key(part@),
{
    let ls = split_lines(part);
    if ls.len() == 0 {
        0
    } else {
        assert(ls@.map_values(|l: Vec<char>| l@)[0] == ls@[0]@);
        match pad_number_of(&ls[0]) {
            Some(n) => n,
            None => 0,
        }
    }
}

/// The sections of a configuration after port `pad` is set to settings `f`
/// (see [`kept_sections`] and [`with_default_sections`]).
pub open spec fn saved_sections(content: Seq<char>, pad: u32, f: Seq<Seq<char>>) -> Seq<Seq<char>> {
    with_default_sections(
        kept_sections(content, section_numbers(text_lines(content)), pad, join_lines(section_lines(pad, f))),
    )
}

/// The ordering keys of section texts.
pub open spec fn section_keys(parts: Seq<Seq<char>>) -> Seq<u32> {
    Seq::new(parts.len(), |i: int| section_key(parts[i]))
}

/// A controller configuration with port `pad` set to `mapping`: the
/// existing sections kept (that port's replaced, or added), keyboard
/// sections added for missing ports 1 to 4, all stably ordered by port
/// number, joined by line feeds with a final one.
pub fn updated_gcpad_ini(content: &str, pad: u32, mapping: &GCPadMapping) -> (s: String)
    ensures
        exists|order: Seq<usize>|
            is_stable_order(section_keys(saved_sections(content@, pad, fields(*mapping))), order) && s@
                == render_sections(saved_sections(content@, pad, fields(*mapping)), order),
{
    let c = chars_of(content);
    let lines = split_lines(&c);
    let nums = section_numbers_of(&lines);
    let new_section = chars_of(format_gcpad_section(pad, mapping).as_str());
    let ghost ns = nums@;
    let ghost kept = kept_sections(c@, ns, pad, new_section@);
    let mut parts: Vec<Vec<char>> = Vec::new();
    let mut found = false;
    for i in 0..nums.len()
        invariant
            ns == nums@,
            parts@.len() == i,
            forall|j: int| 0 <= j < i ==> #[trigger] parts@[j]@ == (if ns[j] == pad {
                new_section@
            } else {
                copied_section(c@, ns[j])
            }),
            found == (exists|j: int| 0 <= j < i && ns[j] == pad),
    {
        if nums[i] == pad {
            parts.push(copy_chars(&new_section));
            found = true;
        } else {
            parts.push(copied_section_of(&c, nums[i]));
        }
    }
    assert(found == ns.contains(pad));
    if !found {
        parts.push(copy_chars(&new_section));
    }
    assert(parts@.map_values(|l: Vec<char>| l@) =~= kept);
    let mut p: u32 = 1;
    while p <= 4
        invariant
            1 <= p <= 5,
            parts@.map_values(|l: Vec<char>| l@) == (if p == 1 {
                kept
            } else if p == 2 {
                add_default_section(kept, 1)
            } else if p == 3 {
                add_default_section(add_default_section(kept, 1), 2)
            } else if p == 4 {
                add_default_section(add_default_section(add_default_section(kept, 1), 2), 3)
            } else {
                with_default_sections(kept)
            }),
        decreases 5 - p,
    {
        let ghost before = parts@.map_values(|l: Vec<char>| l@);
        if !mentions_pad_of(&parts, p) {
            let mut d: Vec<char> = Vec::new();
            push_keyboard_section(&mut d, p);
            assert(d@ =~= keyboard_section(p));
            parts.push(d);
            assert(parts@.map_values(|l: Vec<char>| l@) =~= before.push(keyboard_section(p)));
        }
        p += 1;
    }
    let ghost all = parts@.map_values(|l: Vec<char>| l@);
    assert(all == saved_sections(content@, pad, fields(*mapping)));
    let mut keys: Vec<u32> = Vec::new();
    for i in 0..parts.len()
        invariant
            all == parts@.map_values(|l: Vec<char>| l@),
            keys@.len() == i,
            forall|j: int| 0 <= j < i ==> keys@[j] == section_key(all[j]),
    {
        keys.push(section_key_of(&parts[i]));
    }
    assert(keys@ =~= section_keys(all));
    let order = stable_order(&keys);
    let mut ordered: Vec<Vec<char>> = Vec::new();
    for k in 0..order.len()
        invariant
            all == parts@.map_values(|l: Vec<char>| l@),
            is_stable_order(keys@, order@),
            keys@.len() == parts@.len(),
            ordered@.len() == k,
            forall|j: int| 0 <= j < k ==> #[trigger] ordered@[j]@ == all[order@[j] as int],
    {
        ordered.push(copy_chars(&parts[order[k]]));
    }
    assert(ordered@.map_values(|l: Vec<char>| l@) =~= Seq::new(order@.len(), |k: int| all[order@[k] as int]));
    let mut out = join_with_newlines(&ordered);
    out.push('\n');
    assert(out@ == render_sections(all, order@));
    string_of(&out)
}

/// Joining two non-empty runs of lines is joining each and putting a line
/// feed between.
proof fn lemma_join_concat(a: Seq<Seq<char>>, b: Seq<Seq<char>>)
    requires
        a.len() >= 1,
        b.len() >= 1,
    ensures
        join_lines(a + b) == join_lines(a) + seq!['\n'] + join_lines(b),
    decreases b.len(),
{
    let ab = a + b;
    assert(ab.len() >= 2);
    if b.len() == 1 {
        assert(ab.drop_last() =~= a);
        assert(ab.last() == b[0]);
    } else {
        lemma_join_concat(a, b.drop_last());
        assert(ab.drop_last() =~= a + b.drop_last());
        assert(ab.last() == b.last());
        let x = join_lines(a);
        let y = join_lines(b.drop_last());
        assert(join_lines(ab) == (x + seq!['\n'] + y) + seq!['\n'] + b.last());
        assert(join_lines(b) == y + seq!['\n'] + b.last());
        assert((x + seq!['\n'] + y) + seq!['\n'] + b.last() =~= x + seq!['\n'] + (y + seq!['\n'] + b.last()));
    }
}

/// The lines of several texts, one text after another.
pub open spec fn flat_lines(ll: Seq<Seq<Seq<char>>>) -> Seq<Seq<char>>
    decreases ll.len(),
{
    if ll.len() == 0 {
        seq![]
    } else {
        flat_lines(ll.drop_last()) + ll.last()
    }
}

/// Flattening a concatenation flattens each part.
proof fn lemma_flat_concat(a: Seq<Seq<Seq<char>>>, b: Seq<Seq<Seq<char>>>)
    ensures
        flat_lines(a + b) == flat_lines(a) + flat_lines(b),
    decreases b.len(),
{
    if b.len() == 0 {
        assert(a + b =~= a);
        assert(flat_lines(a) + seq![] =~= flat_lines(a));
    } else {
        lemma_flat_concat(a, b.drop_last());
        assert((a + b).drop_last() =~= a + b.drop_last());
        assert((a + b).last() == b.last());
        assert(flat_lines(a) + flat_lines(b.drop_last()) + b.last() =~= flat_lines(a) + (flat_lines(b.drop_last()) + b.last()));
    }
}

/// Every line of a flattening is a line of one of the texts.
proof fn lemma_flat_members(ll: Seq<Seq<Seq<char>>>, i: int)
    requires
        0 <= i < flat_lines(ll).len(),
    ensures
        exists|k: int, j: int| 0 <= k < ll.len() && 0 <= j < ll[k].len() && flat_lines(ll)[i] == ll[k][j],
    decreases ll.len(),
{
    if ll.len() > 0 {
        let pre = flat_lines(ll.drop_last());
        if i < pre.len() {
            lemma_flat_members(ll.drop_last(), i);
            let (k, j) = choose|k: int, j: int|
                0 <= k < ll.drop_last().len() && 0 <= j < ll.drop_last()[k].len() && pre[i] == ll.drop_last()[k][j];
            assert(ll[k] == ll.drop_last()[k]);
            assert(flat_lines(ll)[i] == ll[k][j]);
        } else {
            let k = ll.len() - 1;
            let j = i - pre.len();
            assert(flat_lines(ll)[i] == ll[k][j]);
        }
    }
}

/// Joining the joined texts is joining all their lines.
proof fn lemma_join_flat(ll: Seq<Seq<Seq<char>>>)
    requires
        ll.len() >= 1,
        forall|k: int| 0 <= k < ll.len() ==> #[trigger] ll[k].len() >= 1,
    ensures
        join_lines(Seq::new(ll.len(), |k: int| join_lines(ll[k]))) == join_lines(flat_lines(ll)),
        flat_lines(ll).len() >= 1,
    decreases ll.len(),
{
    let p = Seq::new(ll.len(), |k: int| join_lines(ll[k]));
    if ll.len() == 1 {
        assert(ll.drop_last().len() == 0);
        assert(flat_lines(ll) =~= ll[0]);
    } else {
        let d = ll.drop_last();
        lemma_join_flat(d);
        assert(p.drop_last() =~= Seq::new(d.len(), |k: int| join_lines(d[k])));
        assert(ll.last().len() >= 1);
        lemma_join_concat(flat_lines(d), ll.last());
    }
}

/// A line as a line of text: no line feed, and no carriage return at its end.
pub open spec fn clean_line(l: Seq<char>) -> bool {
    &&& forall|j: int| 0 <= j < l.len() ==> l[j] != '\n'
    &&& !(l.len() > 0 && l.last() == '\r')
}

/// Clean lines joined with a final line feed are the lines of that text.
proof fn lemma_text_lines_join_nl(ls: Seq<Seq<char>>)
    requires
        ls.len() >= 1,
        forall|i: int| 0 <= i < ls.len() ==> clean_line(#[trigger] ls[i]),
    ensures
        text_lines(join_lines(ls) + seq!['\n']) == ls,
    decreases ls.len(),
{
    let a = ls[0];
    assert(clean_line(a));
    if ls.len() == 1 {
        let s = a + seq!['\n'];
        assert(join_lines(ls) == a);
        crate::text::lemma_line_len_run(s, 0, a.len() as int);
        assert(s.subrange(0, s.len() as int) =~= s);
        assert(s.subrange(0, a.len() as int) =~= a);
        let t = s.subrange(a.len() + 1int, s.len() as int);
        assert(t.len() == 0);
        assert(text_lines(t) == Seq::<Seq<char>>::empty());
        assert(crate::text::line_len(s) == a.len());
        assert(strip_cr(a) == a);
        assert(text_lines(s) == seq![a] + text_lines(t));
        assert(text_lines(s) =~= ls);
    } else {
        lemma_join_front(ls);
        let rest = ls.drop_first();
        assert forall|i: int| 0 <= i < rest.len() implies clean_line(#[trigger] rest[i]) by {
            assert(rest[i] == ls[i + 1]);
        }
        lemma_text_lines_join_nl(rest);
        let s = a + seq!['\n'] + (join_lines(rest) + seq!['\n']);
        assert(join_lines(ls) + seq!['\n'] =~= s);
        crate::text::lemma_line_len_run(s, 0, a.len() as int);
        assert(s.subrange(0, s.len() as int) =~= s);
        assert(s.subrange(0, a.len() as int) =~= a);
        assert(s.subrange(a.len() + 1int, s.len() as int) =~= join_lines(rest) + seq!['\n']);
        assert(strip_cr(a) == a);
        assert(text_lines(s) =~= seq![a] + rest);
        assert(seq![a] + rest =~= ls);
    }
}

/// Different numbers have different decimal digits.
proof fn lemma_dec_digits_injective(a: nat, b: nat)
    requires
        dec_digits(a) == dec_digits(b),
    ensures
        a == b,
    decreases a,
{
    if a >= 10 {
        assert(dec_digits(a).len() == dec_digits(a / 10).len() + 1);
        assert(dec_digits(a / 10).len() >= 1) by {
            if a / 10 >= 10 {
                assert(dec_digits(a / 10) == dec_digits(a / 10 / 10).push(crate::text::digit_char((a / 10 % 10) as int)));
            }
        }
    }
    if b >= 10 {
        assert(dec_digits(b).len() == dec_digits(b / 10).len() + 1);
        assert(dec_digits(b / 10).len() >= 1) by {
            if b / 10 >= 10 {
                assert(dec_digits(b / 10) == dec_digits(b / 10 / 10).push(crate::text::digit_char((b / 10 % 10) as int)));
            }
        }
    }
    if a >= 10 && b >= 10 {
        let da = dec_digits(a);
        let db = dec_digits(b);
        assert(da.last() == crate::text::digit_char((a % 10) as int));
        assert(db.last() == crate::text::digit_char((b % 10) as int));
        assert(da.drop_last() =~= dec_digits(a / 10));
        assert(db.drop_last() =~= dec_digits(b / 10));
        lemma_dec_digits_injective(a / 10, b / 10);
    } else if a < 10 && b < 10 {
        assert(dec_digits(a)[0] == crate::text::digit_char(a as int));
        assert(dec_digits(b)[0] == crate::text::digit_char(b as int));
    }
}

/// Whether a line opens the section titled `header`, as the reader sees it.
pub open spec fn is_header_line(l: Seq<char>, header: Seq<char>) -> bool {
    opens_section(l) && trim(l) == header
}

/// The lines of a keyboard-only section.
pub open spec fn keyboard_lines(p: u32) -> Seq<Seq<char>> {
    seq![section_header(p), "Device = DInput/0/Keyboard Mouse"@]
}

/// A keyboard-only section is the join of its two clean lines; only the
/// first opens a section, and it is the header of no other port.
proof fn lemma_keyboard_lines(p: u32, pad: u32)
    ensures
        join_lines(keyboard_lines(p)) == keyboard_section(p),
        text_lines(keyboard_section(p)) == keyboard_lines(p),
        forall|i: int| 0 <= i < 2 ==> clean_line(#[trigger] keyboard_lines(p)[i]),
        opens_section(keyboard_lines(p)[0]),
        !opens_section(keyboard_lines(p)[1]),
        p != pad ==> !is_header_line(keyboard_lines(p)[0], section_header(pad)),
{
    reveal_strlit("Device = DInput/0/Keyboard Mouse");
    reveal_strlit("\nDevice = DInput/0/Keyboard Mouse");
    reveal_strlit("[GCPad");
    reveal_strlit("]");
    let ls = keyboard_lines(p);
    let h = section_header(p);
    lemma_header_line(p);
    lemma_dec_digits_no_newline(p as nat);
    assert forall|j: int| 0 <= j < h.len() implies h[j] != '\n' by {
        let d = dec_digits(p as nat);
        if 6 <= j < 6 + d.len() {
            assert(h[j] == d[j - 6]);
        }
    }
    assert(clean_line(ls[0]));
    assert(clean_line(ls[1]));
    assert(ls.drop_last().len() == 1);
    assert(ls.drop_last()[0] == h);
    assert(join_lines(ls.drop_last()) == h);
    assert(ls.last() == "Device = DInput/0/Keyboard Mouse"@);
    assert(join_lines(ls) == h + seq!['\n'] + "Device = DInput/0/Keyboard Mouse"@);
    assert(join_lines(ls) =~= keyboard_section(p));
    assert(ls.last().len() > 0);
    lemma_text_lines_join(ls);
    if p != pad && is_header_line(ls[0], section_header(pad)) {
        let hp = section_header(pad);
        assert(h == hp);
        let dp = dec_digits(p as nat);
        let dq = dec_digits(pad as nat);
        assert(h.subrange(6, h.len() - 1) =~= dp);
        assert(hp.subrange(6, hp.len() - 1) =~= dq);
        lemma_dec_digits_injective(p as nat, pad as nat);
    }
}

/// The search for a header goes past lines that are not that header.
proof fn lemma_header_skip(ls: Seq<Seq<char>>, header: Seq<char>, j: int, i: int)
    requires
        0 <= j <= i <= ls.len(),
        forall|k: int| j <= k < i ==> !is_header_line(#[trigger] ls[k], header),
    ensures
        header_at(ls, header, j) == header_at(ls, header, i),
    decreases i - j,
{
    if j < i {
        assert(!is_header_line(ls[j], header));
        lemma_header_skip(ls, header, j + 1, i);
    }
}

/// A run of lines that opens no section belongs wholly to the current
/// section, and reading goes on into what follows.
proof fn lemma_until_concat(a: Seq<Seq<char>>, b: Seq<Seq<char>>)
    requires
        forall|k: int| 0 <= k < a.len() ==> !opens_section(#[trigger] a[k]),
    ensures
        until_next_section(a + b) == a + until_next_section(b),
    decreases a.len(),
{
    if a.len() == 0 {
        assert(a + b =~= b);
        assert(a + until_next_section(b) =~= until_next_section(b));
    } else {
        let rest = a.drop_first();
        assert forall|k: int| 0 <= k < rest.len() implies !opens_section(#[trigger] rest[k]) by {
            assert(rest[k] == a[k + 1]);
        }
        lemma_until_concat(rest, b);
        assert((a + b)[0] == a[0]);
        assert(!opens_section(a[0]));
        assert((a + b).drop_first() =~= rest + b);
        assert(seq![a[0]] + (rest + until_next_section(b)) =~= a + until_next_section(b));
    }
}

/// The first line of a flattening is the first line of the first text.
proof fn lemma_flat_first(ll: Seq<Seq<Seq<char>>>)
    requires
        ll.len() >= 1,
        ll[0].len() >= 1,
    ensures
        flat_lines(ll).len() >= 1,
        flat_lines(ll)[0] == ll[0][0],
{
    lemma_flat_concat(seq![ll[0]], ll.drop_first());
    assert(seq![ll[0]] + ll.drop_first() =~= ll);
    lemma_flat_single(ll[0]);
}

/// A part of a saved configuration that is a keyboard-only section for a
/// port other than `pad`.
pub open spec fn default_part(part: Seq<char>, pad: u32) -> bool {
    exists|q: u32| q != pad && part == keyboard_section(q)
}

/// Parts that start with `first`, all others keyboard-only sections for
/// ports other than `pad`.
pub open spec fn fresh_parts(parts: Seq<Seq<char>>, first: Seq<char>, pad: u32) -> bool {
    &&& parts.len() >= 1
    &&& parts[0] == first
    &&& forall|i: int| 1 <= i < parts.len() ==> default_part(#[trigger] parts[i], pad)
}

/// Adding keyboard sections for missing ports keeps that shape, since the
/// first part mentions `pad`.
proof fn lemma_defaults_keep_shape(parts: Seq<Seq<char>>, first: Seq<char>, pad: u32)
    requires
        fresh_parts(parts, first, pad),
        contains_seq(first, section_header(pad)),
    ensures
        fresh_parts(with_default_sections(parts), first, pad),
{
    assert forall|ps: Seq<Seq<char>>, p: u32| fresh_parts(ps, first, pad) implies fresh_parts(
        #[trigger] add_default_section(ps, p),
        first,
        pad,
    ) by {
        if !mentions_pad(ps, p) {
            if p == pad {
                assert(contains_seq(ps[0], section_header(p)));
                assert(mentions_pad(ps, p));
            }
            let r = ps.push(keyboard_section(p));
            assert forall|i: int| 1 <= i < r.len() implies default_part(#[trigger] r[i], pad) by {
                if i < ps.len() {
                    assert(r[i] == ps[i]);
                } else {
                    assert(r[i] == keyboard_section(p));
                }
            }
        }
    }
    let a = add_default_section(parts, 1);
    let b = add_default_section(a, 2);
    let c = add_default_section(b, 3);
    assert(fresh_parts(a, first, pad));
    assert(fresh_parts(b, first, pad));
    assert(fresh_parts(c, first, pad));
    assert(fresh_parts(add_default_section(c, 4), first, pad));
}

/// The lines of a written section are clean and not empty; the text of the
/// section is their join, its lines are them, and it mentions its header.
proof fn lemma_section_text(pad: u32, f: Seq<Seq<char>>)
    requires
        writable(f),
        single_line(f),
    ensures
        forall|k: int| 0 <= k < 26 ==> clean_line(#[trigger] section_lines(pad, f)[k]),
        forall|k: int| 1 <= k < 26 ==> !opens_section(#[trigger] section_lines(pad, f)[k]),
        text_lines(join_lines(section_lines(pad, f))) == section_lines(pad, f),
        contains_seq(join_lines(section_lines(pad, f)), section_header(pad)),
        section_lines(pad, f)[0] == section_header(pad),
{
    let ls = section_lines(pad, f);
    assert forall|k: int| 0 <= k < 26 implies {
        &&& clean_line(#[trigger] ls[k])
        &&& ls[k].len() > 0
        &&& k > 0 ==> !opens_section(ls[k])
    } by {
        lemma_section_line_shape(pad, f, k);
    }
    assert forall|k: int| 1 <= k < 26 implies !opens_section(#[trigger] ls[k]) by {
        assert(k > 0 ==> !opens_section(ls[k]));
    }
    assert(ls.last() == ls[25]);
    lemma_text_lines_join(ls);
    lemma_join_front(ls);
    let t = join_lines(ls);
    assert(t.subrange(0, ls[0].len() as int) =~= ls[0]);
    assert(occurs_at(t, section_header(pad), 0));
}

/// The sections in saved order.
pub open spec fn ordered_parts(parts: Seq<Seq<char>>, order: Seq<usize>) -> Seq<Seq<char>> {
    Seq::new(order.len(), |k: int| parts[order[k] as int])
}

/// The lines of each section, in saved order.
pub open spec fn part_lines(parts: Seq<Seq<char>>, order: Seq<usize>) -> Seq<Seq<Seq<char>>> {
    Seq::new(order.len(), |k: int| text_lines(ordered_parts(parts, order)[k]))
}

/// Groups of lines of which the one at `k0` is `sl` and every other one,
/// at `k`, is the keyboard-only section of port `qs[k]`, not `pad`.
pub open spec fn fresh_groups(ll: Seq<Seq<Seq<char>>>, k0: int, qs: Seq<u32>, sl: Seq<Seq<char>>, pad: u32) -> bool {
    &&& 0 <= k0 < ll.len()
    &&& qs.len() == ll.len()
    &&& ll[k0] == sl
    &&& forall|k: int| 0 <= k < ll.len() && k != k0 ==> qs[k] != pad && #[trigger] ll[k] == keyboard_lines(qs[k])
}

/// A flattening of one text is that text.
proof fn lemma_flat_single(x: Seq<Seq<char>>)
    ensures
        flat_lines(seq![x]) == x,
{
    let one = seq![x];
    assert(one.drop_last() =~= Seq::<Seq<Seq<char>>>::empty());
    assert(flat_lines(one.drop_last()) == Seq::<Seq<char>>::empty());
    assert(flat_lines(one) =~= x);
}

/// The saved sections, in order, are `pad`'s written section once and
/// keyboard-only sections of other ports; each is the join of its lines.
proof fn lemma_fresh_layout(parts: Seq<Seq<char>>, pad: u32, f: Seq<Seq<char>>, order: Seq<usize>) -> (r: (int, Seq<u32>))
    requires
        writable(f),
        single_line(f),
        fresh_parts(parts, join_lines(section_lines(pad, f)), pad),
        is_stable_order(section_keys(parts), order),
    ensures
        fresh_groups(part_lines(parts, order), r.0, r.1, section_lines(pad, f), pad),
        Seq::new(order.len(), |k: int| join_lines(part_lines(parts, order)[k])) == ordered_parts(parts, order),
{
    let sl = section_lines(pad, f);
    let ns = join_lines(sl);
    lemma_section_text(pad, f);
    let keys = section_keys(parts);
    let n = order.len();
    let l = ordered_parts(parts, order);
    let ll = part_lines(parts, order);
    assert(lists(order, 0));
    let k0 = choose|i: int| 0 <= i < order.len() && order[i] == 0;
    assert forall|k: int| 0 <= k < n && k != k0 implies default_part(#[trigger] l[k], pad) by {
        if order[k] == 0 {
            if k < k0 {
                assert(comes_before(keys, order[k] as int, order[k0] as int));
            } else {
                assert(comes_before(keys, order[k0] as int, order[k] as int));
            }
        }
        assert(1 <= order[k] < parts.len());
        assert(l[k] == parts[order[k] as int]);
    }
    let qs = Seq::new(n, |k: int| choose|q: u32| q != pad && l[k] == keyboard_section(q));
    assert forall|k: int| 0 <= k < n implies {
        &&& join_lines(#[trigger] ll[k]) == l[k]
        &&& k != k0 ==> qs[k] != pad && ll[k] == keyboard_lines(qs[k])
        &&& k == k0 ==> ll[k] == sl
    } by {
        if k == k0 {
            assert(l[k] == ns);
        } else {
            assert(default_part(l[k], pad));
            lemma_keyboard_lines(qs[k], pad);
        }
    }
    assert(Seq::new(n, |k: int| join_lines(ll[k])) =~= l);
    (k0, qs)
}

/// Groups laid out as [`fresh_groups`] say: their lines joined with a final
/// line feed read back as those lines, and the body of `pad`'s section is
/// its written lines after the header.
proof fn lemma_fresh_groups_read(ll: Seq<Seq<Seq<char>>>, k0: int, qs: Seq<u32>, pad: u32, f: Seq<Seq<char>>)
    requires
        writable(f),
        single_line(f),
        fresh_groups(ll, k0, qs, section_lines(pad, f), pad),
    ensures
        text_lines(join_lines(flat_lines(ll)) + seq!['\n']) == flat_lines(ll),
        section_body(flat_lines(ll), section_header(pad)) == section_lines(pad, f).drop_first(),
{
    let sl = section_lines(pad, f);
    let h = section_header(pad);
    lemma_section_text(pad, f);
    lemma_header_line(pad);
    let n = ll.len();
    assert forall|k: int| 0 <= k < n implies {
        &&& (#[trigger] ll[k]).len() >= 1
        &&& forall|j: int| 0 <= j < ll[k].len() ==> clean_line(ll[k][j])
    } by {
        if k != k0 {
            lemma_keyboard_lines(qs[k], pad);
        }
    }
    let r = flat_lines(ll);
    lemma_join_flat(ll);
    assert forall|i: int| 0 <= i < r.len() implies clean_line(#[trigger] r[i]) by {
        lemma_flat_members(ll, i);
    }
    lemma_text_lines_join_nl(r);
    let before = ll.subrange(0, k0);
    let after = ll.subrange(k0 + 1, n as int);
    assert(ll =~= before + seq![sl] + after);
    lemma_flat_concat(before + seq![sl], after);
    lemma_flat_concat(before, seq![sl]);
    lemma_flat_single(sl);
    let pre = flat_lines(before);
    let post = flat_lines(after);
    assert(r == pre + sl + post);
    assert forall|i: int| 0 <= i < pre.len() implies !is_header_line(#[trigger] r[i], h) by {
        lemma_flat_members(before, i);
        let (k, j) = choose|k: int, j: int| 0 <= k < before.len() && 0 <= j < before[k].len() && pre[i] == before[k][j];
        assert(before[k] == ll[k]);
        lemma_keyboard_lines(qs[k], pad);
        assert(r[i] == pre[i]);
    }
    lemma_header_skip(r, h, 0, pre.len() as int);
    assert(r[pre.len() as int] == sl[0]);
    assert(header_at(r, h, pre.len() as int) == Some(pre.len() as int));
    let body = sl.drop_first();
    assert(r.subrange(pre.len() + 1int, r.len() as int) =~= body + post);
    assert forall|k: int| 0 <= k < body.len() implies !opens_section(#[trigger] body[k]) by {
        assert(body[k] == sl[k + 1]);
    }
    lemma_until_concat(body, post);
    if after.len() > 0 {
        assert(after[0] == ll[k0 + 1]);
        lemma_keyboard_lines(qs[k0 + 1], pad);
        lemma_flat_first(after);
        assert(opens_section(post[0]));
    } else {
        assert(post.len() == 0);
    }
    assert(until_next_section(post) == Seq::<Seq<char>>::empty());
    assert(body + Seq::<Seq<char>>::empty() =~= body);
}

/// Saving a mapping for port `pad` into a configuration that has no
/// controller sections yet, then reading that port back from the saved
/// text, gives the mapping, when each value reads back as written and none
/// holds a line feed. `order` is the order the sections are saved in (see
/// [`updated_gcpad_ini`]).
pub proof fn lemma_saved_into_fresh_reads_back(content: Seq<char>, pad: u32, m: GCPadMapping, order: Seq<usize>)
    requires
        writable(fields(m)),
        single_line(fields(m)),
        section_numbers(text_lines(content)).len() == 0,
        is_stable_order(section_keys(saved_sections(content, pad, fields(m))), order),
    ensures
        mapping_for_pad_spec(render_sections(saved_sections(content, pad, fields(m)), order), pad) == fields(m),
{
    let f = fields(m);
    let sl = section_lines(pad, f);
    let ns = join_lines(sl);
    lemma_section_text(pad, f);
    let nums = section_numbers(text_lines(content));
    assert(!nums.contains(pad));
    assert(kept_sections(content, nums, pad, ns) =~= seq![ns]);
    let parts = saved_sections(content, pad, f);
    lemma_defaults_keep_shape(seq![ns], ns, pad);
    let (k0, qs) = lemma_fresh_layout(parts, pad, f, order);
    let ll = part_lines(parts, order);
    assert forall|k: int| 0 <= k < ll.len() implies #[trigger] ll[k].len() >= 1 by {
        if k != k0 {
            lemma_keyboard_lines(qs[k], pad);
        }
    }
    lemma_join_flat(ll);
    assert(render_sections(parts, order) == join_lines(flat_lines(ll)) + seq!['\n']);
    lemma_fresh_groups_read(ll, k0, qs, pad, f);
    lemma_apply_after_first(default_fields(), sl);
    lemma_header_line(pad);
    assert(apply_line(default_fields(), sl[0]) == default_fields());
    lemma_section_round_trip(pad, m);
}

/// Formatting a mapping's section and parsing that text's lines back gives
/// every field of the mapping, for every port, when each value reads back
/// as written and none holds a line feed: what [`format_gcpad_section`]
/// writes, [`parse_gcpad_section`] reads back from its lines.
pub proof fn lemma_format_then_parse(pad: u32, m: GCPadMapping)
    requires
        writable(fields(m)),
        single_line(fields(m)),
    ensures
        apply_lines(default_fields(), text_lines(join_lines(section_lines(pad, fields(m))))) == fields(m),
{
    lemma_section_text(pad, fields(m));
    lemma_section_round_trip(pad, m);
}

} // verus!
