//! Piano key names and their parsing.
//!
//! Key indices are 0-based from A0: `0 = A0`, `48 = A4`, `87 = C8`.

use vstd::prelude::*;

use crate::text::{
    all_digits, chars_of, decimal, decimal_chars, digit_value, digits_value, is_digit,
    lemma_decimal_digits, lemma_digits_value_grows, string_from_chars,
};

verus! {

/// Name of a note within the 12-key block that starts at A.
pub open spec fn note_name(note: int) -> Seq<char> {
    if note == 0 {
        seq!['A']
    } else if note == 1 {
        seq!['A', '#']
    } else if note == 2 {
        seq!['B']
    } else if note == 3 {
        seq!['C']
    } else if note == 4 {
        seq!['C', '#']
    } else if note == 5 {
        seq!['D']
    } else if note == 6 {
        seq!['D', '#']
    } else if note == 7 {
        seq!['E']
    } else if note == 8 {
        seq!['F']
    } else if note == 9 {
        seq!['F', '#']
    } else if note == 10 {
        seq!['G']
    } else {
        seq!['G', '#']
    }
}

/// Scientific octave number of a key: keys count from A, octaves roll over at C.
pub open spec fn key_octave(key: nat) -> nat {
    if key % 12 <= 2 {
        key / 12
    } else {
        key / 12 + 1
    }
}

/// The name of key `key`, such as `"A0"`, `"C4"` or `"C#5"`.
pub open spec fn spec_key_name(key: nat) -> Seq<char> {
    note_name((key % 12) as int) + decimal(key_octave(key))
}

/// `char::is_whitespace`: the Unicode `White_Space` characters.
pub open spec fn is_whitespace(c: char) -> bool {
    ||| '\t' <= c && c <= '\r'
    ||| c == ' '
    ||| c == '\u{85}'
    ||| c == '\u{a0}'
    ||| c == '\u{1680}'
    ||| '\u{2000}' <= c && c <= '\u{200a}'
    ||| c == '\u{2028}'
    ||| c == '\u{2029}'
    ||| c == '\u{202f}'
    ||| c == '\u{205f}'
    ||| c == '\u{3000}'
}

/// `s` without its leading whitespace.
pub open spec fn trim_start(s: Seq<char>) -> Seq<char>
    decreases s.len(),
{
    if s.len() > 0 && is_whitespace(s[0]) {
        trim_start(s.drop_first())
    } else {
        s
    }
}

/// `s` without its trailing whitespace.
pub open spec fn trim_end(s: Seq<char>) -> Seq<char>
    decreases s.len(),
{
    if s.len() > 0 && is_whitespace(s.last()) {
        trim_end(s.drop_last())
    } else {
        s
    }
}

/// `s` without leading and trailing whitespace (`str::trim`).
pub open spec fn trim(s: Seq<char>) -> Seq<char> {
    trim_end(trim_start(s))
}

/// `char::to_ascii_uppercase`.
pub open spec fn ascii_upper(c: char) -> char {
    if 'a' <= c && c <= 'z' {
        ((c as int) - 32) as char
    } else {
        c
    }
}

/// Semitones from A of a natural note letter (upper case).
pub open spec fn letter_semitone(c: char) -> Option<int> {
    if c == 'A' {
        Some(0)
    } else if c == 'B' {
        Some(2)
    } else if c == 'C' {
        Some(3)
    } else if c == 'D' {
        Some(5)
    } else if c == 'E' {
        Some(7)
    } else if c == 'F' {
        Some(8)
    } else if c == 'G' {
        Some(10)
    } else {
        None
    }
}

/// `i32::from_str`: an optional sign, then one or more ASCII digits, in `i32` range.
pub open spec fn parse_i32(s: Seq<char>) -> Option<int> {
    if s.len() == 0 {
        None
    } else {
        let signed = s[0] == '+' || s[0] == '-';
        let digits = if signed { s.drop_first() } else { s };
        if digits.len() == 0 || !all_digits(digits) {
            None
        } else {
            let v = if s[0] == '-' { -digits_value(digits) } else { digits_value(digits) };
            if i32::MIN <= v && v <= i32::MAX {
                Some(v)
            } else {
                None
            }
        }
    }
}

/// The key index named by a natural note `letter` semitones above A, an
/// accidental `accidental` (`+1` sharp, `-1` flat, `0` none) and a scientific
/// `octave`, if it is one of the 88 keys. Octave numbers roll over at C, so
/// the letters C..G belong to the key block of the previous octave number;
/// the accidental moves the note after the letter has fixed its octave
/// (`Cb4` is B3, `B#3` is C4).
pub open spec fn key_from_parts(letter: int, accidental: int, octave: int) -> Option<nat> {
    let block = if letter >= 3 { octave - 1 } else { octave };
    let index = block * 12 + letter + accidental;
    if 0 <= index < 88 {
        Some(index as nat)
    } else {
        None
    }
}

/// The key index that `name` denotes: after trimming whitespace, a note
/// letter (either case), an optional `#` or `b`, then an `i32` octave.
pub open spec fn spec_key_index_from_name(name: Seq<char>) -> Option<nat> {
    let t = trim(name);
    if t.len() == 0 {
        None
    } else {
        match letter_semitone(ascii_upper(t[0])) {
            None => None,
            Some(base) => {
                let rest = t.drop_first();
                let sharp = rest.len() > 0 && rest[0] == '#';
                let flat = rest.len() > 0 && rest[0] == 'b';
                let accidental: int = if sharp { 1 } else if flat { -1 } else { 0 };
                let digits = if sharp || flat { rest.drop_first() } else { rest };
                match parse_i32(digits) {
                    None => None,
                    Some(octave) => key_from_parts(base, accidental, octave),
                }
            },
        }
    }
}

fn push_note_name(v: &mut Vec<char>, note: usize)
    requires
        note < 12,
    ensures
        final(v)@ == old(v)@ + note_name(note as int),
{
    let ghost before = v@;
    if note == 0 {
        v.push('A');
    } else if note == 1 {
        v.push('A');
        v.push('#');
    } else if note == 2 {
        v.push('B');
    } else if note == 3 {
        v.push('C');
    } else if note == 4 {
        v.push('C');
        v.push('#');
    } else if note == 5 {
        v.push('D');
    } else if note == 6 {
        v.push('D');
        v.push('#');
    } else if note == 7 {
        v.push('E');
    } else if note == 8 {
        v.push('F');
    } else if note == 9 {
        v.push('F');
        v.push('#');
    } else if note == 10 {
        v.push('G');
    } else {
        v.push('G');
        v.push('#');
    }
    assert(v@ =~= before + note_name(note as int));
}

/// Key name (e.g. `"A0"`, `"C4"`, `"C#5"`) for a key index.
///
/// Piano keys start at A0, but scientific octave numbers roll over at C,
/// so A0/A#0/B0 stay in octave 0 while C1 starts the next octave.
pub fn key_name(key_index: usize) -> (name: String)
    ensures
        name@ == spec_key_name(key_index as nat),
{
    let note = key_index % 12;
    let octave: usize = if note <= 2 {
        key_index / 12
    } else {
        key_index / 12 + 1
    };
    let mut v: Vec<char> = Vec::new();
    push_note_name(&mut v, note);
    let digits = decimal_chars(octave as u64);
    let mut i: usize = 0;
    let ghost head = v@;
    while i < digits.len()
        invariant
            i <= digits.len(),
            v@ == head + digits@.take(i as int),
        decreases digits.len() - i,
    {
        v.push(digits[i]);
        assert(digits@.take(i as int + 1) == digits@.take(i as int).push(digits@[i as int]));
        i = i + 1;
    }
    assert(digits@.take(digits.len() as int) == digits@);
    string_from_chars(&v)
}

fn is_whitespace_char(c: char) -> (b: bool)
    ensures
        b == is_whitespace(c),
{
    ('\t' <= c && c <= '\r') || c == ' ' || c == '\u{85}' || c == '\u{a0}' || c == '\u{1680}'
        || ('\u{2000}' <= c && c <= '\u{200a}') || c == '\u{2028}' || c == '\u{2029}'
        || c == '\u{202f}' || c == '\u{205f}' || c == '\u{3000}'
}

/// Bounds `[lo, hi)` of `v` without leading and trailing whitespace.
pub fn trim_bounds(v: &Vec<char>) -> (r: (usize, usize))
    ensures
        r.0 <= r.1 <= v.len(),
        v@.subrange(r.0 as int, r.1 as int) == trim(v@),
{
    let n = v.len();
    let mut lo: usize = 0;
    assert(v@.subrange(0, n as int) == v@);
    while lo < n && is_whitespace_char(v[lo])
        invariant
            lo <= n,
            n == v.len(),
            trim_start(v@.subrange(lo as int, n as int)) == trim_start(v@),
        decreases n - lo,
    {
        assert(v@.subrange(lo as int, n as int).drop_first() == v@.subrange(lo + 1, n as int));
        lo = lo + 1;
    }
    assert(trim_start(v@) == v@.subrange(lo as int, n as int));
    let mut hi: usize = n;
    while hi > lo && is_whitespace_char(v[hi - 1])
        invariant
            lo <= hi <= n,
            n == v.len(),
            trim_end(v@.subrange(lo as int, hi as int)) == trim(v@),
        decreases hi,
    {
        assert(v@.subrange(lo as int, hi as int).drop_last() == v@.subrange(lo as int, hi - 1));
        hi = hi - 1;
    }
    (lo, hi)
}

/// `i32::from_str` on the characters `v[from..to]`.
#[verifier::loop_isolation(false)]
pub fn parse_i32_chars(v: &Vec<char>, from: usize, to: usize) -> (r: Option<i32>)
    requires
        from <= to <= v.len(),
    ensures
        r matches Some(x) ==> parse_i32(v@.subrange(from as int, to as int)) == Some(x as int),
        r is None ==> parse_i32(v@.subrange(from as int, to as int)) is None,
{
    let ghost s = v@.subrange(from as int, to as int);
    if from == to {
        return None;
    }
    let negative = v[from] == '-';
    let signed = negative || v[from] == '+';
    let start: usize = if signed { from + 1 } else { from };
    let ghost digits = v@.subrange(start as int, to as int);
    assert(digits == (if signed { s.drop_first() } else { s }));
    if start == to {
        return None;
    }
    let mut acc: i64 = 0;
    let mut i: usize = start;
    while i < to
        invariant
            start <= i <= to <= v.len(),
            digits == v@.subrange(start as int, to as int),
            all_digits(digits.take(i - start)),
            acc == digits_value(digits.take(i - start)),
            0 <= acc <= 2147483648,
        decreases to - i,
    {
        let c = v[i];
        assert(digits[i - start] == c);
        if !('0' <= c && c <= '9') {
            assert(!is_digit(digits[i - start]));
            assert(!all_digits(digits));
            return None;
        }
        let d: i64 = (c as u32 - 48) as i64;
        let ghost prefix = digits.take(i - start);
        assert(digits.take(i - start + 1) == prefix.push(c));
        assert(digits.take(i - start + 1).drop_last() == prefix);
        assert(digits_value(digits.take(i - start + 1)) == digits_value(prefix) * 10 + digit_value(c));
        assert(digit_value(c) == d);
        acc = acc * 10 + d;
        i = i + 1;
        if acc > 2147483648 {
            proof {
                let k = i - start;
                if all_digits(digits) {
                    lemma_digits_value_grows(digits, k);
                    assert(digits_value(digits) > 2147483648);
                }
            }
            return None;
        }
    }
    assert(digits.take(to - start) == digits);
    let value: i64 = if negative { -acc } else { acc };
    if value > 2147483647 {
        return None;
    }
    Some(value as i32)
}

fn letter_semitone_exec(c: char) -> (r: Option<i64>)
    ensures
        r matches Some(x) ==> letter_semitone(c) == Some(x as int),
        r is None ==> letter_semitone(c) is None,
{
    if c == 'A' {
        Some(0)
    } else if c == 'B' {
        Some(2)
    } else if c == 'C' {
        Some(3)
    } else if c == 'D' {
        Some(5)
    } else if c == 'E' {
        Some(7)
    } else if c == 'F' {
        Some(8)
    } else if c == 'G' {
        Some(10)
    } else {
        None
    }
}

fn to_ascii_upper(c: char) -> (u: char)
    ensures
        u == ascii_upper(c),
{
    if 'a' <= c && c <= 'z' {
        let b: u8 = (c as u8) - 32;
        b as char
    } else {
        c
    }
}

/// Inverse of [`key_name`]: parse `"C#4"` / `"Bb3"` style names into a key index.
///
/// Returns `None` if the name cannot be parsed or is outside the 88-key range.
pub fn key_index_from_name(name: &str) -> (r: Option<usize>)
    ensures
        r matches Some(k) ==> spec_key_index_from_name(name@) == Some(k as nat) && k < 88,
        r is None ==> spec_key_index_from_name(name@) is None,
{
    let v = chars_of(name);
    let (lo, hi) = trim_bounds(&v);
    let ghost t = v@.subrange(lo as int, hi as int);
    if lo == hi {
        return None;
    }
    let letter = to_ascii_upper(v[lo]);
    let base = match letter_semitone_exec(letter) {
        None => {
            return None;
        },
        Some(b) => b,
    };
    let mut semitone: i64 = base;
    let mut start: usize = lo + 1;
    let ghost rest = t.drop_first();
    assert(rest == v@.subrange(lo + 1, hi as int));
    if start < hi && v[start] == '#' {
        semitone = base + 1;
        start = start + 1;
    } else if start < hi && v[start] == 'b' {
        semitone = base - 1;
        start = start + 1;
    }
    assert(start > lo + 1 ==> rest.drop_first() == v@.subrange(start as int, hi as int));
    let octave = match parse_i32_chars(&v, start, hi) {
        None => {
            return None;
        },
        Some(o) => o as i64,
    };
    let block: i64 = if base >= 3 {
        octave - 1
    } else {
        octave
    };
    let index: i64 = block * 12 + semitone;
    if 0 <= index && index < 88 {
        Some(index as usize)
    } else {
        None
    }
}

/// Reading a key's name back gives the key: for every one of the 88 keys,
/// `key_index_from_name(key_name(k)) == Some(k)`.
pub proof fn lemma_key_name_roundtrip(k: nat)
    requires
        k < 88,
    ensures
        spec_key_index_from_name(spec_key_name(k)) == Some(k),
{
    let note = (k % 12) as int;
    let octave = key_octave(k);
    let d = decimal(octave);
    lemma_decimal_digits(octave);
    let head = note_name(note);
    let s = spec_key_name(k);
    assert(s == head + d);
    assert(head.len() >= 1 && head.len() <= 2);
    assert(s[0] == head[0]);
    assert(s.last() == d.last());
    assert(is_digit(d.last()));
    assert(is_digit(d[0]));
    assert(!is_whitespace(s[0]));
    assert(!is_whitespace(s.last()));
    assert(trim_start(s) == s);
    assert(trim_end(s) == s);
    assert(trim(s) == s);
    let rest = s.drop_first();
    if head.len() == 2 {
        assert(head[1] == '#');
        assert(rest[0] == '#');
        assert(rest.drop_first() == d);
    } else {
        assert(rest == d);
        assert(rest[0] != '#' && rest[0] != 'b');
    }
    assert(d[0] != '+' && d[0] != '-');
    assert(parse_i32(d) == Some(octave as int));
}

} // verus!
