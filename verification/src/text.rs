//! Character-level text handling: conversion between strings and character
//! vectors, white space, number formatting and number parsing as Rust's
//! standard library does them.

use vstd::prelude::*;

verus! {

/// Appends one character; calls `String::push`.
#[verifier::external_body]
pub(crate) fn push_char(s: &mut String, c: char)
    ensures
        final(s)@ == old(s)@.push(c),
{
    s.push(c)
}

/// The characters of a string.
pub fn chars_of(s: &str) -> (v: Vec<char>)
    ensures
        v@ == s@,
{
    let mut v: Vec<char> = Vec::new();
    for c in it: s.chars()
        invariant
            v@ == it.seq().subrange(0, it.index() as int),
    {
        v.push(c);
    }
    v
}

/// A string holding the given characters.
pub fn string_of(v: &Vec<char>) -> (s: String)
    ensures
        s@ == v@,
{
    let mut s = String::new();
    for i in 0..v.len()
        invariant
            s@ == v@.subrange(0, i as int),
    {
        push_char(&mut s, v[i]);
        assert(s@ =~= v@.subrange(0, i + 1));
    }
    assert(v@.subrange(0, v@.len() as int) =~= v@);
    s
}

/// Unicode white space, which `str::trim` removes.
pub open spec fn is_ws(c: char) -> bool {
    let u = c as u32;
    u == 0x20 || (0x09 <= u <= 0x0D) || u == 0x85 || u == 0xA0 || u == 0x1680 || (0x2000 <= u <= 0x200A)
        || u == 0x2028 || u == 0x2029 || u == 0x202F || u == 0x205F || u == 0x3000
}

/// Whether a character is white space.
pub fn is_whitespace(c: char) -> (b: bool)
    ensures
        b == is_ws(c),
{
    let u = c as u32;
    u == 0x20 || (0x09 <= u && u <= 0x0D) || u == 0x85 || u == 0xA0 || u == 0x1680 || (0x2000 <= u
        && u <= 0x200A) || u == 0x2028 || u == 0x2029 || u == 0x202F || u == 0x205F || u == 0x3000
}

/// `s` without its leading white space.
pub open spec fn trim_start(s: Seq<char>) -> Seq<char>
    decreases s.len(),
{
    if s.len() > 0 && is_ws(s[0]) {
        trim_start(s.drop_first())
    } else {
        s
    }
}

/// `s` without its trailing white space.
pub open spec fn trim_end(s: Seq<char>) -> Seq<char>
    decreases s.len(),
{
    if s.len() > 0 && is_ws(s.last()) {
        trim_end(s.drop_last())
    } else {
        s
    }
}

/// `s` without leading or trailing white space.
pub open spec fn trim(s: Seq<char>) -> Seq<char> {
    trim_end(trim_start(s))
}

/// Removing leading white space from `s[i..]` when `s[..i]` is all white space.
proof fn lemma_trim_start_skip(s: Seq<char>, i: int)
    requires
        0 <= i <= s.len(),
        forall|j: int| 0 <= j < i ==> is_ws(s[j]),
    ensures
        trim_start(s) == trim_start(s.subrange(i, s.len() as int)),
    decreases i,
{
    if i > 0 {
        lemma_trim_start_skip(s, i - 1);
        let t = s.subrange(i - 1, s.len() as int);
        assert(t.drop_first() =~= s.subrange(i, s.len() as int));
    } else {
        assert(s.subrange(0, s.len() as int) =~= s);
    }
}

/// Removing trailing white space from `s[..i]` when `s[i..]` is all white space.
proof fn lemma_trim_end_skip(s: Seq<char>, i: int)
    requires
        0 <= i <= s.len(),
        forall|j: int| i <= j < s.len() ==> is_ws(s[j]),
    ensures
        trim_end(s) == trim_end(s.subrange(0, i)),
    decreases s.len() - i,
{
    if i < s.len() {
        lemma_trim_end_skip(s, i + 1);
        let t = s.subrange(0, i + 1);
        assert(t.drop_last() =~= s.subrange(0, i));
    } else {
        assert(s.subrange(0, s.len() as int) =~= s);
    }
}

/// The characters of `v[from..to]`.
pub fn slice_chars(v: &Vec<char>, from: usize, to: usize) -> (r: Vec<char>)
    requires
        from <= to <= v@.len(),
    ensures
        r@ == v@.subrange(from as int, to as int),
{
    let mut r: Vec<char> = Vec::new();
    for i in from..to
        invariant
            from <= to <= v@.len(),
            r@ == v@.subrange(from as int, i as int),
    {
        r.push(v[i]);
        assert(r@ =~= v@.subrange(from as int, i + 1));
    }
    r
}

/// `v` without leading or trailing white space.
pub fn trim_chars(v: &Vec<char>) -> (r: Vec<char>)
    ensures
        r@ == trim(v@),
{
    let n = v.len();
    let mut a: usize = 0;
    while a < n && is_whitespace(v[a])
        invariant
            a <= n == v@.len(),
            forall|j: int| 0 <= j < a ==> is_ws(v@[j]),
        decreases n - a,
    {
        a += 1;
    }
    proof {
        lemma_trim_start_skip(v@, a as int);
    }
    let mut b: usize = n;
    while b > a && is_whitespace(v[b - 1])
        invariant
            a <= b <= n == v@.len(),
            forall|j: int| b <= j < n ==> is_ws(v@[j]),
        decreases b,
    {
        b -= 1;
    }
    let ghost t = v@.subrange(a as int, n as int);
    proof {
        assert(trim_start(t) == t);
        lemma_trim_end_skip(t, (b - a) as int);
        assert(t.subrange(0, (b - a) as int) =~= v@.subrange(a as int, b as int));
        let u = v@.subrange(a as int, b as int);
        if u.len() > 0 {
            assert(!is_ws(u.last()));
        }
        assert(trim_end(u) == u);
    }
    slice_chars(v, a, b)
}

/// Whether `s` begins with `p`.
pub open spec fn has_prefix(s: Seq<char>, p: Seq<char>) -> bool {
    p.len() <= s.len() && s.subrange(0, p.len() as int) == p
}

/// Whether `v` begins with `p`.
pub fn starts_with(v: &Vec<char>, p: &Vec<char>) -> (b: bool)
    ensures
        b == has_prefix(v@, p@),
{
    if p.len() > v.len() {
        return false;
    }
    for i in 0..p.len()
        invariant
            p@.len() <= v@.len(),
            forall|j: int| 0 <= j < i ==> v@[j] == p@[j],
    {
        if v[i] != p[i] {
            return false;
        }
    }
    assert(v@.subrange(0, p@.len() as int) =~= p@);
    true
}

/// Whether two character vectors are equal.
pub fn chars_eq(a: &Vec<char>, b: &Vec<char>) -> (r: bool)
    ensures
        r == (a@ == b@),
{
    if a.len() != b.len() {
        return false;
    }
    for i in 0..a.len()
        invariant
            a@.len() == b@.len(),
            forall|j: int| 0 <= j < i ==> a@[j] == b@[j],
    {
        if a[i] != b[i] {
            return false;
        }
    }
    assert(a@ =~= b@);
    true
}

/// The index of the first occurrence of `c` in `s`, if any.
pub open spec fn first_index_of(s: Seq<char>, c: char) -> Option<int> {
    if exists|i: int| 0 <= i < s.len() && s[i] == c {
        Some(choose|i: int| 0 <= i < s.len() && s[i] == c && forall|j: int| 0 <= j < i ==> s[j] != c)
    } else {
        None
    }
}

/// The index of the first occurrence of `c` in `v`, if any.
pub fn find_char(v: &Vec<char>, c: char) -> (r: Option<usize>)
    ensures
        match r {
            Some(i) => first_index_of(v@, c) == Some(i as int) && i < v@.len() && v@[i as int] == c
                && forall|j: int| 0 <= j < i ==> v@[j] != c,
            None => first_index_of(v@, c) is None && forall|j: int| 0 <= j < v@.len() ==> v@[j] != c,
        },
{
    for i in 0..v.len()
        invariant
            forall|j: int| 0 <= j < i ==> v@[j] != c,
    {
        if v[i] == c {
            assert(first_index_of(v@, c) == Some(i as int)) by {
                let k = choose|k: int| 0 <= k < v@.len() && v@[k] == c && forall|j: int| 0 <= j < k ==> v@[j] != c;
                assert(0 <= i < v@.len() && v@[i as int] == c);
                if k < i {
                } else if k > i {
                }
            }
            return Some(i);
        }
    }
    None
}

/// The decimal digit character for `d` (0 to 9).
pub open spec fn digit_char(d: int) -> char {
    if d == 0 {
        '0'
    } else if d == 1 {
        '1'
    } else if d == 2 {
        '2'
    } else if d == 3 {
        '3'
    } else if d == 4 {
        '4'
    } else if d == 5 {
        '5'
    } else if d == 6 {
        '6'
    } else if d == 7 {
        '7'
    } else if d == 8 {
        '8'
    } else {
        '9'
    }
}

/// The decimal representation of a number, without sign or leading zeros.
pub open spec fn dec_digits(v: nat) -> Seq<char>
    decreases v,
{
    if v < 10 {
        seq![digit_char(v as int)]
    } else {
        dec_digits(v / 10).push(digit_char((v % 10) as int))
    }
}

/// The upper-case hexadecimal digit character for `d` (0 to 15).
pub open spec fn hex_char(d: int) -> char {
    if d == 0 {
        '0'
    } else if d == 1 {
        '1'
    } else if d == 2 {
        '2'
    } else if d == 3 {
        '3'
    } else if d == 4 {
        '4'
    } else if d == 5 {
        '5'
    } else if d == 6 {
        '6'
    } else if d == 7 {
        '7'
    } else if d == 8 {
        '8'
    } else if d == 9 {
        '9'
    } else if d == 10 {
        'A'
    } else if d == 11 {
        'B'
    } else if d == 12 {
        'C'
    } else if d == 13 {
        'D'
    } else if d == 14 {
        'E'
    } else {
        'F'
    }
}

/// The upper-case hexadecimal representation of a number, without leading zeros.
pub open spec fn hex_digits(v: nat) -> Seq<char>
    decreases v,
{
    if v < 16 {
        seq![hex_char(v as int)]
    } else {
        hex_digits(v / 16).push(hex_char((v % 16) as int))
    }
}

/// `s` padded on the left with zeros to at least `width` characters.
pub open spec fn zero_pad(s: Seq<char>, width: nat) -> Seq<char> {
    if s.len() >= width {
        s
    } else {
        Seq::new((width - s.len()) as nat, |i: int| '0') + s
    }
}

/// A signed number in decimal, with a minus sign when negative.
pub open spec fn signed_digits(v: int) -> Seq<char> {
    if v < 0 {
        seq!['-'] + dec_digits((-v) as nat)
    } else {
        dec_digits(v as nat)
    }
}

/// Append the decimal digits of `v`.
pub fn push_dec(out: &mut Vec<char>, v: u64)
    ensures
        final(out)@ == old(out)@ + dec_digits(v as nat),
    decreases v,
{
    if v >= 10 {
        push_dec(out, v / 10);
    }
    out.push(dec_char((v % 10) as u8));
}

/// The digit character of a decimal digit.
pub fn dec_char(d: u8) -> (c: char)
    requires
        d < 10,
    ensures
        c == digit_char(d as int),
{
    match d {
        0 => '0',
        1 => '1',
        2 => '2',
        3 => '3',
        4 => '4',
        5 => '5',
        6 => '6',
        7 => '7',
        8 => '8',
        _ => '9',
    }
}

/// The upper-case digit character of a hexadecimal digit.
pub fn hex_digit_char(d: u8) -> (c: char)
    requires
        d < 16,
    ensures
        c == hex_char(d as int),
{
    match d {
        0 => '0',
        1 => '1',
        2 => '2',
        3 => '3',
        4 => '4',
        5 => '5',
        6 => '6',
        7 => '7',
        8 => '8',
        9 => '9',
        10 => 'A',
        11 => 'B',
        12 => 'C',
        13 => 'D',
        14 => 'E',
        _ => 'F',
    }
}

/// Append the upper-case hexadecimal digits of `v`.
pub fn push_hex(out: &mut Vec<char>, v: u64)
    ensures
        final(out)@ == old(out)@ + hex_digits(v as nat),
    decreases v,
{
    if v >= 16 {
        push_hex(out, v / 16);
    }
    out.push(hex_digit_char((v % 16) as u8));
}

/// Append the upper-case hexadecimal digits of `v`, zero-padded to `width`.
pub fn push_hex_padded(out: &mut Vec<char>, v: u64, width: usize)
    ensures
        final(out)@ == old(out)@ + zero_pad(hex_digits(v as nat), width as nat),
{
    let mut digits: Vec<char> = Vec::new();
    push_hex(&mut digits, v);
    assert(digits@ =~= hex_digits(v as nat));
    let ghost start = out@;
    let mut k = digits.len();
    while k < width
        invariant
            digits@ == hex_digits(v as nat),
            digits@.len() <= k <= (if width > digits@.len() { width as int } else { digits@.len() as int }),
            out@ == start + Seq::new((k - digits@.len()) as nat, |i: int| '0'),
        decreases width - k,
    {
        out.push('0');
        k += 1;
        assert(out@ =~= start + Seq::new((k - digits@.len()) as nat, |i: int| '0'));
    }
    let ghost mid = out@;
    for i in 0..digits.len()
        invariant
            out@ == mid + digits@.subrange(0, i as int),
    {
        out.push(digits[i]);
        assert(out@ =~= mid + digits@.subrange(0, i + 1));
    }
    assert(digits@.subrange(0, digits@.len() as int) =~= digits@);
    proof {
        if digits@.len() >= width {
            assert(Seq::new((k - digits@.len()) as nat, |i: int| '0') =~= Seq::<char>::empty());
            assert(out@ =~= start + digits@);
        } else {
            assert(out@ =~= start + (Seq::new((width - digits@.len()) as nat, |i: int| '0') + digits@));
        }
    }
}

/// Append a signed number in decimal, with a minus sign when negative.
pub fn push_signed(out: &mut Vec<char>, v: i64)
    requires
        v > i64::MIN,
    ensures
        final(out)@ == old(out)@ + signed_digits(v as int),
{
    if v < 0 {
        out.push('-');
        push_dec(out, (-v) as u64);
        assert(final(out)@ =~= old(out)@ + signed_digits(v as int));
    } else {
        push_dec(out, v as u64);
    }
}

/// Append a string's characters.
pub fn push_str(out: &mut Vec<char>, s: &str)
    ensures
        final(out)@ == old(out)@ + s@,
{
    let ghost start = out@;
    for c in it: s.chars()
        invariant
            out@ == start + it.seq().subrange(0, it.index() as int),
    {
        out.push(c);
        assert(out@ =~= start + it.seq().subrange(0, it.index() + 1));
    }
}

/// Append a character vector.
pub fn push_chars(out: &mut Vec<char>, s: &Vec<char>)
    ensures
        final(out)@ == old(out)@ + s@,
{
    let ghost start = out@;
    for i in 0..s.len()
        invariant
            out@ == start + s@.subrange(0, i as int),
    {
        out.push(s[i]);
        assert(out@ =~= start + s@.subrange(0, i + 1));
    }
    assert(s@.subrange(0, s@.len() as int) =~= s@);
}

/// The value of a digit in base 10 or 16 (letters in either case), if it is one.
pub open spec fn digit_value(c: char, radix: nat) -> Option<nat> {
    let u = c as u32;
    if 0x30 <= u <= 0x39 && u - 0x30 < radix {
        Some((u - 0x30) as nat)
    } else if radix == 16 && 0x61 <= u <= 0x66 {
        Some((u - 0x61 + 10) as nat)
    } else if radix == 16 && 0x41 <= u <= 0x46 {
        Some((u - 0x41 + 10) as nat)
    } else {
        None
    }
}

/// Whether every character is a digit in the radix.
pub open spec fn all_digits(s: Seq<char>, radix: nat) -> bool {
    forall|i: int| 0 <= i < s.len() ==> digit_value(#[trigger] s[i], radix) is Some
}

/// The value of a string of digits.
pub open spec fn digits_value(s: Seq<char>, radix: nat) -> nat
    decreases s.len(),
{
    if s.len() == 0 {
        0
    } else {
        digits_value(s.drop_last(), radix) * radix + digit_value(s.last(), radix).unwrap_or(0)
    }
}

/// What Rust's parsing of an unsigned integer type whose largest value is
/// `max` gives: an optional `+`, then at least one digit and nothing else,
/// and a value that fits.
pub open spec fn parse_unsigned_spec(s: Seq<char>, radix: nat, max: nat) -> Option<nat> {
    let d = if s.len() > 0 && s[0] == '+' { s.drop_first() } else { s };
    if d.len() == 0 || !all_digits(d, radix) || digits_value(d, radix) > max {
        None
    } else {
        Some(digits_value(d, radix))
    }
}

/// What Rust's parsing of an `i8` gives: an optional sign, then at least one
/// digit and nothing else, and a value in -128..=127.
pub open spec fn parse_i8_spec(s: Seq<char>) -> Option<int> {
    if s.len() > 0 && s[0] == '-' {
        let d = s.drop_first();
        if d.len() == 0 || !all_digits(d, 10) || digits_value(d, 10) > 128 {
            None
        } else {
            Some(-(digits_value(d, 10) as int))
        }
    } else {
        match parse_unsigned_spec(s, 10, 127) {
            Some(v) => Some(v as int),
            None => None,
        }
    }
}

/// The value of a digit character in base 10 or 16.
pub fn digit_of(c: char, radix: u32) -> (d: Option<u32>)
    ensures
        match d {
            Some(x) => digit_value(c, radix as nat) == Some(x as nat),
            None => digit_value(c, radix as nat) is None,
        },
{
    let u = c as u32;
    if 0x30 <= u && u <= 0x39 && u - 0x30 < radix {
        Some(u - 0x30)
    } else if radix == 16 && 0x61 <= u && u <= 0x66 {
        Some(u - 0x61 + 10)
    } else if radix == 16 && 0x41 <= u && u <= 0x46 {
        Some(u - 0x41 + 10)
    } else {
        None
    }
}

/// The value of `s[from..]` as digits in the radix, or `max + 1` if larger;
/// `None` if some character is not a digit.
fn digits_capped(s: &Vec<char>, from: usize, radix: u32, max: u64) -> (r: Option<u128>)
    requires
        from <= s@.len(),
        radix == 10 || radix == 16,
    ensures
        all_digits(s@.subrange(from as int, s@.len() as int), radix as nat) <==> r is Some,
        r matches Some(v) ==> v == (if digits_value(s@.subrange(from as int, s@.len() as int), radix as nat) > max {
            max + 1int
        } else {
            digits_value(s@.subrange(from as int, s@.len() as int), radix as nat) as int
        }),
{
    let mut acc: u128 = 0;
    let n = s.len();
    for i in from..n
        invariant
            from <= n == s@.len(),
            radix == 10 || radix == 16,
            all_digits(s@.subrange(from as int, i as int), radix as nat),
            acc == (if digits_value(s@.subrange(from as int, i as int), radix as nat) > max {
                max + 1int
            } else {
                digits_value(s@.subrange(from as int, i as int), radix as nat) as int
            }),
    {
        let ghost pre = s@.subrange(from as int, i as int);
        let ghost next = s@.subrange(from as int, i + 1);
        assert(next.drop_last() =~= pre);
        match digit_of(s[i], radix) {
            None => {
                assert(!all_digits(s@.subrange(from as int, n as int), radix as nat)) by {
                    assert(s@.subrange(from as int, n as int)[i - from] == s@[i as int]);
                }
                return None;
            },
            Some(d) => {
                let ghost v = digits_value(pre, radix as nat);
                assert(digits_value(next, radix as nat) == v * radix + d);
                if acc > max as u128 {
                    assert(v * radix + d >= v) by (nonlinear_arith)
                        requires
                            radix >= 1,
                            v >= 0,
                            d >= 0,
                    ;
                } else {
                    acc = acc * (radix as u128) + (d as u128);
                    if acc > max as u128 {
                        acc = max as u128 + 1;
                    }
                }
                assert forall|j: int| 0 <= j < next.len() implies digit_value(#[trigger] next[j], radix as nat) is Some by {
                    if j < pre.len() {
                        assert(next[j] == pre[j]);
                    }
                }
            },
        }
    }
    Some(acc)
}

/// Parse an unsigned number as Rust does (see [`parse_unsigned_spec`]).
pub fn parse_unsigned(s: &Vec<char>, radix: u32, max: u64) -> (r: Option<u64>)
    requires
        radix == 10 || radix == 16,
    ensures
        match r {
            Some(v) => parse_unsigned_spec(s@, radix as nat, max as nat) == Some(v as nat),
            None => parse_unsigned_spec(s@, radix as nat, max as nat) is None,
        },
{
    let from: usize = if s.len() > 0 && s[0] == '+' { 1 } else { 0 };
    proof {
        let d = if s@.len() > 0 && s@[0] == '+' { s@.drop_first() } else { s@ };
        assert(d =~= s@.subrange(from as int, s@.len() as int));
    }
    if from == s.len() {
        return None;
    }
    match digits_capped(s, from, radix, max) {
        None => None,
        Some(v) => {
            if v > max as u128 {
                None
            } else {
                Some(v as u64)
            }
        },
    }
}

/// Parse an `i8` as Rust does (see [`parse_i8_spec`]).
pub fn parse_i8(s: &Vec<char>) -> (r: Option<i8>)
    ensures
        match r {
            Some(v) => parse_i8_spec(s@) == Some(v as int),
            None => parse_i8_spec(s@) is None,
        },
{
    if s.len() > 0 && s[0] == '-' {
        proof {
            assert(s@.drop_first() =~= s@.subrange(1, s@.len() as int));
        }
        if s.len() == 1 {
            return None;
        }
        match digits_capped(s, 1, 10, 128) {
            None => None,
            Some(v) => {
                if v > 128 {
                    None
                } else {
                    Some((0 - (v as i16)) as i8)
                }
            },
        }
    } else {
        match parse_unsigned(s, 10, 127) {
            Some(v) => Some(v as i8),
            None => None,
        }
    }
}


/// The length of the run of non-white-space characters that starts `s`.
pub open spec fn word_len(s: Seq<char>) -> nat
    decreases s.len(),
{
    if s.len() == 0 || is_ws(s[0]) {
        0
    } else {
        1 + word_len(s.drop_first())
    }
}

/// A leading word is no longer than the text.
pub proof fn lemma_word_len_bound(s: Seq<char>)
    ensures
        word_len(s) <= s.len(),
    decreases s.len(),
{
    if s.len() > 0 && !is_ws(s[0]) {
        lemma_word_len_bound(s.drop_first());
    }
}

/// The words of `s`: its maximal runs of non-white-space characters, in
/// order, as `str::split_whitespace` gives them.
pub open spec fn words(s: Seq<char>) -> Seq<Seq<char>>
    decreases s.len(),
{
    if s.len() == 0 {
        seq![]
    } else if is_ws(s[0]) {
        words(s.drop_first())
    } else {
        proof {
            lemma_word_len_bound(s);
        }
        seq![s.subrange(0, word_len(s) as int)] + words(s.subrange(word_len(s) as int, s.len() as int))
    }
}

/// A run of non-white-space from `i` up to white space or the end is the
/// leading word of `s[i..]`.
proof fn lemma_word_len_run(s: Seq<char>, i: int, j: int)
    requires
        0 <= i <= j <= s.len(),
        forall|k: int| i <= k < j ==> !is_ws(s[k]),
        j == s.len() || is_ws(s[j]),
    ensures
        word_len(s.subrange(i, s.len() as int)) == j - i,
    decreases j - i,
{
    let t = s.subrange(i, s.len() as int);
    if i < j {
        lemma_word_len_run(s, i + 1, j);
        assert(t.drop_first() =~= s.subrange(i + 1, s.len() as int));
    }
}

/// The words of `v`, as `str::split_whitespace` gives them.
pub fn split_words(v: &Vec<char>) -> (r: Vec<Vec<char>>)
    ensures
        r@.map_values(|w: Vec<char>| w@) == words(v@),
{
    let n = v.len();
    let mut out: Vec<Vec<char>> = Vec::new();
    let mut i: usize = 0;
    proof {
        assert(v@.subrange(0, n as int) =~= v@);
        assert(out@.map_values(|w: Vec<char>| w@) =~= seq![]);
    }
    while i < n
        invariant
            i <= n == v@.len(),
            out@.map_values(|w: Vec<char>| w@) + words(v@.subrange(i as int, n as int)) == words(v@),
        decreases n - i,
    {
        let ghost t = v@.subrange(i as int, n as int);
        if is_whitespace(v[i]) {
            assert(t.drop_first() =~= v@.subrange(i + 1, n as int));
            i += 1;
        } else {
            let mut j = i + 1;
            while j < n && !is_whitespace(v[j])
                invariant
                    i < j <= n == v@.len(),
                    forall|k: int| i <= k < j ==> !is_ws(v@[k]),
                decreases n - j,
            {
                j += 1;
            }
            proof {
                lemma_word_len_run(v@, i as int, j as int);
                assert(t.subrange(0, (j - i) as int) =~= v@.subrange(i as int, j as int));
                assert(t.subrange((j - i) as int, t.len() as int) =~= v@.subrange(j as int, n as int));
            }
            let w = slice_chars(v, i, j);
            let ghost before = out@.map_values(|w: Vec<char>| w@);
            out.push(w);
            assert(out@.map_values(|w: Vec<char>| w@) =~= before.push(w@));
            assert(before.push(w@) + words(v@.subrange(j as int, n as int)) =~= before + words(t));
            i = j;
        }
    }
    proof {
        assert(words(v@.subrange(n as int, n as int)) =~= seq![]) by {
            assert(v@.subrange(n as int, n as int).len() == 0);
        }
        assert(out@.map_values(|w: Vec<char>| w@) + seq![] =~= out@.map_values(|w: Vec<char>| w@));
    }
    out
}

/// `s` with every leading repetition of `p` removed, as `str::trim_start_matches` does.
pub open spec fn strip_all(s: Seq<char>, p: Seq<char>) -> Seq<char>
    decreases s.len(),
{
    if p.len() > 0 && has_prefix(s, p) {
        strip_all(s.subrange(p.len() as int, s.len() as int), p)
    } else {
        s
    }
}

/// `v` with every leading repetition of `p` removed.
pub fn strip_all_prefixes(v: &Vec<char>, p: &Vec<char>) -> (r: Vec<char>)
    ensures
        r@ == strip_all(v@, p@),
{
    if p.len() == 0 {
        return slice_chars(v, 0, v.len());
    }
    let mut cur = slice_chars(v, 0, v.len());
    assert(cur@ =~= v@);
    while starts_with(&cur, p)
        invariant
            p@.len() > 0,
            strip_all(cur@, p@) == strip_all(v@, p@),
        decreases cur@.len(),
    {
        cur = slice_chars(&cur, p.len(), cur.len());
    }
    cur
}


/// A line without the carriage return of a `\r\n` ending.
pub open spec fn strip_cr(l: Seq<char>) -> Seq<char> {
    if l.len() > 0 && l.last() == '\r' {
        l.drop_last()
    } else {
        l
    }
}

/// The length of the first line of `s`: up to its first `\n` or its end.
pub open spec fn line_len(s: Seq<char>) -> nat
    decreases s.len(),
{
    if s.len() == 0 || s[0] == '\n' {
        0
    } else {
        1 + line_len(s.drop_first())
    }
}

/// A first line is no longer than the text.
pub proof fn lemma_line_len_bound(s: Seq<char>)
    ensures
        line_len(s) <= s.len(),
        line_len(s) < s.len() ==> s[line_len(s) as int] == '\n',
    decreases s.len(),
{
    if s.len() > 0 && s[0] != '\n' {
        lemma_line_len_bound(s.drop_first());
    }
}

/// The lines of `s` as `str::lines` gives them: split at each `\n`, a `\r`
/// just before it dropped; a final line ending adds no empty line.
pub open spec fn text_lines(s: Seq<char>) -> Seq<Seq<char>>
    decreases s.len(),
{
    if s.len() == 0 {
        seq![]
    } else if line_len(s) < s.len() {
        proof {
            lemma_line_len_bound(s);
        }
        seq![strip_cr(s.subrange(0, line_len(s) as int))] + text_lines(
            s.subrange(line_len(s) + 1int, s.len() as int),
        )
    } else {
        seq![s]
    }
}

/// A run without `\n` from `i` up to a `\n` or the end is the first line of `s[i..]`.
pub proof fn lemma_line_len_run(s: Seq<char>, i: int, j: int)
    requires
        0 <= i <= j <= s.len(),
        forall|k: int| i <= k < j ==> s[k] != '\n',
        j == s.len() || s[j] == '\n',
    ensures
        line_len(s.subrange(i, s.len() as int)) == j - i,
    decreases j - i,
{
    let t = s.subrange(i, s.len() as int);
    if i < j {
        lemma_line_len_run(s, i + 1, j);
        assert(t.drop_first() =~= s.subrange(i + 1, s.len() as int));
    }
}

/// `first_index_of` finds the first occurrence.
pub proof fn lemma_first_index_of(s: Seq<char>, c: char, p: int)
    requires
        0 <= p < s.len(),
        s[p] == c,
        forall|j: int| 0 <= j < p ==> s[j] != c,
    ensures
        first_index_of(s, c) == Some(p),
{
    let k = choose|k: int| 0 <= k < s.len() && s[k] == c && forall|j: int| 0 <= j < k ==> s[j] != c;
    assert(0 <= p < s.len() && s[p] == c);
    if k < p {
    } else if k > p {
    }
}

/// The first line of `v[i..]` and where the next one starts (`None` at the end).
fn next_line(v: &Vec<char>, i: usize) -> (r: (Vec<char>, Option<usize>))
    requires
        i < v@.len(),
    ensures
        ({
            let t = v@.subrange(i as int, v@.len() as int);
            match r.1 {
                Some(next) => line_len(t) < t.len() && r.0@ == strip_cr(t.subrange(0, line_len(t) as int))
                    && next == i + line_len(t) + 1 && next <= v@.len(),
                None => line_len(t) == t.len() && r.0@ == t,
            }
        }),
{
    let n = v.len();
    let mut j = i;
    while j < n && v[j] != '\n'
        invariant
            i <= j <= n == v@.len(),
            forall|k: int| i <= k < j ==> v@[k] != '\n',
        decreases n - j,
    {
        j += 1;
    }
    proof {
        lemma_line_len_run(v@, i as int, j as int);
    }
    let ghost t = v@.subrange(i as int, n as int);
    if j < n {
        let end = if j > i && v[j - 1] == '\r' { j - 1 } else { j };
        let line = slice_chars(v, i, end);
        assert(t.subrange(0, (j - i) as int) =~= v@.subrange(i as int, j as int));
        assert(line@ =~= strip_cr(v@.subrange(i as int, j as int)));
        (line, Some(j + 1))
    } else {
        (slice_chars(v, i, n), None)
    }
}

/// The lines of `v` (see [`text_lines`]).
pub fn split_lines(v: &Vec<char>) -> (r: Vec<Vec<char>>)
    ensures
        r@.map_values(|l: Vec<char>| l@) == text_lines(v@),
{
    let n = v.len();
    let mut out: Vec<Vec<char>> = Vec::new();
    let mut i: usize = 0;
    assert(v@.subrange(0, n as int) =~= v@);
    assert(out@.map_values(|l: Vec<char>| l@) =~= seq![]);
    while i < n
        invariant
            i <= n == v@.len(),
            out@.map_values(|l: Vec<char>| l@) + text_lines(v@.subrange(i as int, n as int)) == text_lines(v@),
        decreases n - i,
    {
        let ghost t = v@.subrange(i as int, n as int);
        let ghost before = out@.map_values(|l: Vec<char>| l@);
        let (line, next) = next_line(v, i);
        out.push(line);
        assert(out@.map_values(|l: Vec<char>| l@) =~= before.push(line@));
        match next {
            Some(k) => {
                assert(t.subrange(line_len(t) + 1int, t.len() as int) =~= v@.subrange(k as int, n as int));
                assert(before.push(line@) + text_lines(v@.subrange(k as int, n as int)) =~= before + text_lines(t));
                i = k;
            },
            None => {
                assert(text_lines(v@.subrange(n as int, n as int)) =~= seq![]) by {
                    assert(v@.subrange(n as int, n as int).len() == 0);
                }
                assert(before.push(line@) + text_lines(v@.subrange(n as int, n as int)) =~= before + text_lines(t));
                i = n;
            },
        }
    }
    assert(text_lines(v@.subrange(n as int, n as int)) =~= seq![]) by {
        assert(v@.subrange(n as int, n as int).len() == 0);
    }
    assert(out@.map_values(|l: Vec<char>| l@) + seq![] =~= out@.map_values(|l: Vec<char>| l@));
    out
}

/// Whether `p` occurs in `s` at position `i`.
pub open spec fn occurs_at(s: Seq<char>, p: Seq<char>, i: int) -> bool {
    0 <= i && i + p.len() <= s.len() && s.subrange(i, i + p.len()) == p
}

/// Whether `p` occurs in `s`, as `str::contains` tells.
pub open spec fn contains_seq(s: Seq<char>, p: Seq<char>) -> bool {
    exists|i: int| occurs_at(s, p, i)
}

/// Whether `p` occurs at position `i` of `v`.
pub fn matches_at(v: &Vec<char>, p: &Vec<char>, i: usize) -> (b: bool)
    requires
        i <= v@.len(),
    ensures
        b == occurs_at(v@, p@, i as int),
{
    let n = v.len();
    if p.len() > n - i {
        return false;
    }
    for k in 0..p.len()
        invariant
            n == v@.len(),
            i + p@.len() <= n,
            forall|j: int| 0 <= j < k ==> v@[i + j] == p@[j],
    {
        if v[i + k] != p[k] {
            assert(v@.subrange(i as int, i + p@.len())[k as int] != p@[k as int]);
            return false;
        }
    }
    assert(v@.subrange(i as int, i + p@.len()) =~= p@);
    true
}

/// Whether `p` occurs in `v`.
pub fn contains_chars(v: &Vec<char>, p: &Vec<char>) -> (b: bool)
    ensures
        b == contains_seq(v@, p@),
{
    let n = v.len();
    for i in 0..n
        invariant
            n == v@.len(),
            forall|j: int| 0 <= j < i ==> !occurs_at(v@, p@, j),
    {
        if matches_at(v, p, i) {
            return true;
        }
    }
    let b = matches_at(v, p, n);
    assert(!b ==> forall|j: int| !occurs_at(v@, p@, j)) by {
        if !b {
            assert forall|j: int| !occurs_at(v@, p@, j) by {
                if 0 <= j < n {
                }
            }
        }
    }
    b
}

/// `s` with every occurrence of the non-empty `from`, taken left to right
/// without overlap, replaced by `to`, as `str::replace` does.
pub open spec fn replace_all(s: Seq<char>, from: Seq<char>, to: Seq<char>) -> Seq<char>
    decreases s.len(),
{
    if s.len() == 0 || from.len() == 0 {
        s
    } else if occurs_at(s, from, 0) {
        to + replace_all(s.subrange(from.len() as int, s.len() as int), from, to)
    } else {
        seq![s[0]] + replace_all(s.drop_first(), from, to)
    }
}

/// [`replace_all`] on character vectors.
pub fn replace_chars(v: &Vec<char>, from: &Vec<char>, to: &Vec<char>) -> (r: Vec<char>)
    requires
        from@.len() > 0,
    ensures
        r@ == replace_all(v@, from@, to@),
{
    let n = v.len();
    let mut out: Vec<char> = Vec::new();
    let mut i: usize = 0;
    assert(v@.subrange(0, n as int) =~= v@);
    while i < n
        invariant
            i <= n == v@.len(),
            from@.len() > 0,
            out@ + replace_all(v@.subrange(i as int, n as int), from@, to@) == replace_all(v@, from@, to@),
        decreases n - i,
    {
        let ghost t = v@.subrange(i as int, n as int);
        let ghost before = out@;
        if matches_at(v, from, i) {
            assert(occurs_at(t, from@, 0)) by {
                assert(t.subrange(0, from@.len() as int) =~= v@.subrange(i as int, i + from@.len()));
            }
            assert(t.subrange(from@.len() as int, t.len() as int) =~= v@.subrange(i + from@.len(), n as int));
            push_chars(&mut out, to);
            assert(before + to@ + replace_all(v@.subrange(i + from@.len(), n as int), from@, to@) =~= before
                + replace_all(t, from@, to@));
            i = i + from.len();
        } else {
            assert(!occurs_at(t, from@, 0)) by {
                if occurs_at(t, from@, 0) {
                    assert(t.subrange(0, from@.len() as int) =~= v@.subrange(i as int, i + from@.len()));
                }
            }
            assert(t.drop_first() =~= v@.subrange(i + 1, n as int));
            out.push(v[i]);
            assert(before.push(v@[i as int]) + replace_all(v@.subrange(i + 1, n as int), from@, to@) =~= before
                + replace_all(t, from@, to@));
            i = i + 1;
        }
    }
    assert(replace_all(v@.subrange(n as int, n as int), from@, to@) =~= seq![]) by {
        assert(v@.subrange(n as int, n as int).len() == 0);
    }
    assert(out@ + seq![] =~= out@);
    out
}

/// The first position of `p` in `s`, as `str::find` gives it.
pub open spec fn find_seq(s: Seq<char>, p: Seq<char>) -> Option<int> {
    if exists|i: int| occurs_at(s, p, i) {
        Some(choose|i: int| occurs_at(s, p, i) && forall|j: int| 0 <= j < i ==> !occurs_at(s, p, j))
    } else {
        None
    }
}

/// The first position of `p` in `v` (see [`find_seq`]).
pub fn find_chars(v: &Vec<char>, p: &Vec<char>) -> (r: Option<usize>)
    ensures
        match r {
            Some(i) => find_seq(v@, p@) == Some(i as int) && occurs_at(v@, p@, i as int),
            None => find_seq(v@, p@) is None && !contains_seq(v@, p@),
        },
{
    let n = v.len();
    for i in 0..n
        invariant
            n == v@.len(),
            forall|j: int| 0 <= j < i ==> !occurs_at(v@, p@, j),
    {
        if matches_at(v, p, i) {
            proof {
                lemma_find_seq_at(v@, p@, i as int);
            }
            return Some(i);
        }
    }
    if matches_at(v, p, n) {
        proof {
            lemma_find_seq_at(v@, p@, n as int);
        }
        return Some(n);
    }
    assert forall|j: int| !occurs_at(v@, p@, j) by {
        if 0 <= j < n {
        }
    }
    None
}

/// `find_seq` gives the first occurrence.
proof fn lemma_find_seq_at(s: Seq<char>, p: Seq<char>, i: int)
    requires
        occurs_at(s, p, i),
        forall|j: int| 0 <= j < i ==> !occurs_at(s, p, j),
    ensures
        find_seq(s, p) == Some(i),
{
    let k = choose|k: int| occurs_at(s, p, k) && forall|j: int| 0 <= j < k ==> !occurs_at(s, p, j);
    assert(occurs_at(s, p, i));
    if k < i {
    } else if k > i {
    }
}



/// `v` without trailing white space.
pub fn trim_end_chars(v: &Vec<char>) -> (r: Vec<char>)
    ensures
        r@ == trim_end(v@),
{
    let n = v.len();
    let mut b: usize = n;
    while b > 0 && is_whitespace(v[b - 1])
        invariant
            b <= n == v@.len(),
            forall|j: int| b <= j < n ==> is_ws(v@[j]),
        decreases b,
    {
        b -= 1;
    }
    proof {
        lemma_trim_end_skip(v@, b as int);
        let u = v@.subrange(0, b as int);
        if u.len() > 0 {
            assert(!is_ws(u.last()));
        }
        assert(trim_end(u) == u);
    }
    slice_chars(v, 0, b)
}


/// Append the decimal digits of `v`, zero-padded to `width`.
pub fn push_dec_padded(out: &mut Vec<char>, v: u64, width: usize)
    ensures
        final(out)@ == old(out)@ + zero_pad(dec_digits(v as nat), width as nat),
{
    let mut digits: Vec<char> = Vec::new();
    push_dec(&mut digits, v);
    assert(digits@ =~= dec_digits(v as nat));
    let ghost start = out@;
    let mut k = digits.len();
    while k < width
        invariant
            digits@ == dec_digits(v as nat),
            digits@.len() <= k <= (if width > digits@.len() { width as int } else { digits@.len() as int }),
            out@ == start + Seq::new((k - digits@.len()) as nat, |i: int| '0'),
        decreases width - k,
    {
        out.push('0');
        k += 1;
        assert(out@ =~= start + Seq::new((k - digits@.len()) as nat, |i: int| '0'));
    }
    let ghost mid = out@;
    push_chars(out, &digits);
    proof {
        if digits@.len() >= width {
            assert(Seq::new((k - digits@.len()) as nat, |i: int| '0') =~= Seq::<char>::empty());
            assert(out@ =~= start + digits@);
        } else {
            assert(out@ =~= start + (Seq::new((width - digits@.len()) as nat, |i: int| '0') + digits@));
        }
    }
}

/// A word followed by a space and more text: its words are that word, then
/// the words of the rest.
pub proof fn lemma_words_cons(a: Seq<char>, rest: Seq<char>)
    requires
        a.len() > 0,
        forall|k: int| 0 <= k < a.len() ==> !is_ws(#[trigger] a[k]),
    ensures
        words(a + seq![' '] + rest) == seq![a] + words(rest),
{
    let s = a + seq![' '] + rest;
    assert(forall|k: int| 0 <= k < a.len() ==> s[k] == a[k]);
    assert(is_ws(s[a.len() as int]));
    lemma_word_len_run(s, 0, a.len() as int);
    assert(s.subrange(0, s.len() as int) =~= s);
    assert(s.subrange(0, a.len() as int) =~= a);
    let t = s.subrange(a.len() as int, s.len() as int);
    assert(t =~= seq![' '] + rest);
    assert(t.drop_first() =~= rest);
    assert(!is_ws(s[0]));
    assert(words(t) == words(rest));
}

/// The words of two texts joined by a space are the words of each.
pub proof fn lemma_words_append(a: Seq<char>, b: Seq<char>)
    ensures
        words(a + seq![' '] + b) == words(a) + words(b),
    decreases a.len(),
{
    let s = a + seq![' '] + b;
    if a.len() == 0 {
        assert(s =~= seq![' '] + b);
        assert(s.drop_first() =~= b);
        assert(words(a) == Seq::<Seq<char>>::empty());
        assert(words(s) == words(b));
        assert(words(a) + words(b) =~= words(b));
    } else if is_ws(a[0]) {
        lemma_words_append(a.drop_first(), b);
        assert(s.drop_first() =~= a.drop_first() + seq![' '] + b);
        assert(s[0] == a[0]);
    } else {
        lemma_word_len_bound(a);
        let wl = word_len(a) as int;
        assert(wl > 0) by {
            assert(!is_ws(a[0]));
        }
        assert forall|k: int| 0 <= k < wl implies !is_ws(s[k]) by {
            lemma_word_len_prefix(a, k);
        }
        assert(is_ws(s[wl])) by {
            if wl < a.len() {
                lemma_word_len_stop(a);
            }
        }
        lemma_word_len_run(s, 0, wl);
        assert(s.subrange(0, s.len() as int) =~= s);
        assert(s.subrange(0, wl) =~= a.subrange(0, wl));
        let ra = a.subrange(wl, a.len() as int);
        assert(s.subrange(wl, s.len() as int) =~= ra + seq![' '] + b);
        lemma_words_append(ra, b);
        assert(!is_ws(s[0]));
        assert(words(s) == seq![a.subrange(0, wl)] + words(ra + seq![' '] + b));
        assert(words(a) == seq![a.subrange(0, wl)] + words(ra));
        assert(seq![a.subrange(0, wl)] + (words(ra) + words(b)) =~= (seq![a.subrange(0, wl)] + words(ra)) + words(b));
    }
}

/// Inside its leading word, a text has no white space.
proof fn lemma_word_len_prefix(s: Seq<char>, k: int)
    requires
        0 <= k < word_len(s),
    ensures
        !is_ws(s[k]),
    decreases k,
{
    lemma_word_len_bound(s);
    assert(s.len() > 0 && !is_ws(s[0]));
    if k > 0 {
        lemma_word_len_prefix(s.drop_first(), k - 1);
        assert(s.drop_first()[k - 1] == s[k]);
    }
}

/// A leading word shorter than the text stops at white space.
proof fn lemma_word_len_stop(s: Seq<char>)
    requires
        word_len(s) < s.len(),
    ensures
        is_ws(s[word_len(s) as int]),
    decreases s.len(),
{
    if s.len() > 0 && !is_ws(s[0]) {
        lemma_word_len_stop(s.drop_first());
        assert(s.drop_first()[word_len(s.drop_first()) as int] == s[word_len(s) as int]);
    }
}

/// A word alone is its only word.
pub proof fn lemma_words_single(a: Seq<char>)
    requires
        a.len() > 0,
        forall|k: int| 0 <= k < a.len() ==> !is_ws(#[trigger] a[k]),
    ensures
        words(a) == seq![a],
{
    lemma_word_len_run(a, 0, a.len() as int);
    assert(a.subrange(0, a.len() as int) =~= a);
    assert(a.subrange(a.len() as int, a.len() as int).len() == 0);
    assert(words(a.subrange(a.len() as int, a.len() as int)) == Seq::<Seq<char>>::empty());
    assert(!is_ws(a[0]));
}

/// A character that is neither white space, nor a sign, nor an `x`.
pub open spec fn plain_char(c: char) -> bool {
    !is_ws(c) && c != '+' && c != '-' && c != 'x' && c != 'X'
}

/// The hexadecimal digit characters: plain, and digits of their value
/// (decimal ones in base 10 too).
proof fn lemma_hex_char(d: int)
    requires
        0 <= d < 16,
    ensures
        plain_char(hex_char(d)),
        digit_value(hex_char(d), 16) == Some(d as nat),
        d < 10 ==> hex_char(d) == digit_char(d) && digit_value(digit_char(d), 10) == Some(d as nat),
{
}

/// The decimal digits of a number: at least one, all plain digits, and
/// their value is the number.
pub proof fn lemma_dec_digits_value(n: nat)
    ensures
        dec_digits(n).len() >= 1,
        all_digits(dec_digits(n), 10),
        digits_value(dec_digits(n), 10) == n,
        forall|k: int| 0 <= k < dec_digits(n).len() ==> plain_char(#[trigger] dec_digits(n)[k]),
    decreases n,
{
    let s = dec_digits(n);
    if n < 10 {
        lemma_hex_char(n as int);
        assert(s.drop_last().len() == 0);
        assert(digits_value(s.drop_last(), 10) == 0);
    } else {
        lemma_dec_digits_value(n / 10);
        let t = dec_digits(n / 10);
        let d = n % 10;
        lemma_hex_char(d as int);
        assert(s == t.push(digit_char(d as int)));
        assert(s.drop_last() =~= t);
        assert forall|k: int| 0 <= k < s.len() implies plain_char(#[trigger] s[k]) && digit_value(s[k], 10) is Some by {
            if k < t.len() {
                assert(s[k] == t[k]);
            }
        }
        assert(n == (n / 10) * 10 + d);
    }
}

/// The upper-case hexadecimal digits of a number: at least one, all plain
/// digits, and their value is the number.
pub proof fn lemma_hex_digits_value(n: nat)
    ensures
        hex_digits(n).len() >= 1,
        all_digits(hex_digits(n), 16),
        digits_value(hex_digits(n), 16) == n,
        forall|k: int| 0 <= k < hex_digits(n).len() ==> plain_char(#[trigger] hex_digits(n)[k]),
    decreases n,
{
    let s = hex_digits(n);
    if n < 16 {
        lemma_hex_char(n as int);
        assert(s.drop_last().len() == 0);
        assert(digits_value(s.drop_last(), 16) == 0);
    } else {
        lemma_hex_digits_value(n / 16);
        let t = hex_digits(n / 16);
        let d = n % 16;
        lemma_hex_char(d as int);
        assert(s == t.push(hex_char(d as int)));
        assert(s.drop_last() =~= t);
        assert forall|k: int| 0 <= k < s.len() implies plain_char(#[trigger] s[k]) && digit_value(s[k], 16) is Some by {
            if k < t.len() {
                assert(s[k] == t[k]);
            }
        }
        assert(n == (n / 16) * 16 + d);
    }
}

/// A number below 16^4 has at most four hexadecimal digits.
pub proof fn lemma_hex_digits_len(n: nat)
    requires
        n < 0x10000,
    ensures
        hex_digits(n).len() <= 4,
{
    if n >= 16 {
        assert(hex_digits(n).len() == hex_digits(n / 16).len() + 1);
        if n / 16 >= 16 {
            assert(hex_digits(n / 16).len() == hex_digits(n / 16 / 16).len() + 1);
            if n / 16 / 16 >= 16 {
                assert(hex_digits(n / 16 / 16).len() == hex_digits(n / 16 / 16 / 16).len() + 1);
                assert(n / 16 / 16 / 16 < 16);
                assert(hex_digits(n / 16 / 16 / 16).len() == 1);
            }
        }
    }
}

/// Leading zeros change neither the digits' validity nor their value.
pub proof fn lemma_zero_pad_value(s: Seq<char>, width: nat, radix: nat)
    requires
        radix == 10 || radix == 16,
        all_digits(s, radix),
    ensures
        all_digits(zero_pad(s, width), radix),
        digits_value(zero_pad(s, width), radix) == digits_value(s, radix),
        zero_pad(s, width).len() == if s.len() >= width { s.len() } else { width },
        forall|k: int| 0 <= k < zero_pad(s, width).len() - s.len() ==> #[trigger] zero_pad(s, width)[k] == '0',
        forall|k: int| 0 <= k < s.len() ==> #[trigger] zero_pad(s, width)[zero_pad(s, width).len() - s.len() + k] == s[k],
{
    if s.len() < width {
        let z = Seq::new((width - s.len()) as nat, |i: int| '0');
        lemma_zeros_prefix_value(z, s, radix);
    }
}

/// Zeros in front of digits add nothing to their value.
proof fn lemma_zeros_prefix_value(z: Seq<char>, s: Seq<char>, radix: nat)
    requires
        radix == 10 || radix == 16,
        forall|k: int| 0 <= k < z.len() ==> z[k] == '0',
        all_digits(s, radix),
    ensures
        all_digits(z + s, radix),
        digits_value(z + s, radix) == digits_value(s, radix),
    decreases s.len(),
{
    let zs = z + s;
    assert forall|k: int| 0 <= k < zs.len() implies digit_value(#[trigger] zs[k], radix) is Some by {
        if k < z.len() {
            assert(zs[k] == '0');
        } else {
            assert(zs[k] == s[k - z.len()]);
        }
    }
    if s.len() == 0 {
        assert(zs =~= z);
        lemma_zeros_value(z, radix);
    } else {
        let sd = s.drop_last();
        assert forall|k: int| 0 <= k < sd.len() implies digit_value(#[trigger] sd[k], radix) is Some by {
            assert(sd[k] == s[k]);
        }
        lemma_zeros_prefix_value(z, sd, radix);
        assert(zs.drop_last() =~= z + sd);
        assert(zs.last() == s.last());
    }
}

/// A run of zeros is worth nothing.
proof fn lemma_zeros_value(z: Seq<char>, radix: nat)
    requires
        radix == 10 || radix == 16,
        forall|k: int| 0 <= k < z.len() ==> z[k] == '0',
    ensures
        digits_value(z, radix) == 0,
    decreases z.len(),
{
    if z.len() > 0 {
        let zd = z.drop_last();
        assert forall|k: int| 0 <= k < zd.len() implies zd[k] == '0' by {
            assert(zd[k] == z[k]);
        }
        lemma_zeros_value(zd, radix);
        assert(z.last() == '0');
    }
}

/// A number's decimal digits parse back to it.
pub proof fn lemma_parse_dec_digits(n: nat, max: nat)
    requires
        n <= max,
    ensures
        parse_unsigned_spec(dec_digits(n), 10, max) == Some(n),
{
    lemma_dec_digits_value(n);
    assert(plain_char(dec_digits(n)[0]));
}

/// A signed number in decimal parses back as an `i8`.
pub proof fn lemma_parse_signed_digits(v: int)
    requires
        -128 <= v <= 127,
    ensures
        parse_i8_spec(signed_digits(v)) == Some(v),
        signed_digits(v).len() >= 1,
        forall|k: int| 0 <= k < signed_digits(v).len() ==> !is_ws(#[trigger] signed_digits(v)[k]),
{
    if v < 0 {
        let d = dec_digits((-v) as nat);
        lemma_dec_digits_value((-v) as nat);
        let s = signed_digits(v);
        assert(s.drop_first() =~= d);
        assert forall|k: int| 0 <= k < s.len() implies !is_ws(#[trigger] s[k]) by {
            if k > 0 {
                assert(s[k] == d[k - 1]);
                assert(plain_char(d[k - 1]));
            }
        }
    } else {
        lemma_parse_dec_digits(v as nat, 127);
        lemma_dec_digits_value(v as nat);
        let d = dec_digits(v as nat);
        assert(plain_char(d[0]));
        assert forall|k: int| 0 <= k < d.len() implies !is_ws(#[trigger] d[k]) by {
            assert(plain_char(d[k]));
        }
    }
}

} // verus!
