//! Conversion between `Color` and hexadecimal codes ("#RRGGBB", "#RRGGBBAA"
//! or "#RGB"), to show the code of each colour and to enter one by code.
use vstd::prelude::*;
use vstd::string::*;
use crate::color::Color;
use crate::text::push_char;

verus! {

/// The upper-case hexadecimal digit of `n` (below 16).
pub open spec fn hex_digit(n: int) -> char {
    if n < 10 {
        ((48 + n) as u32) as char
    } else {
        ((55 + n) as u32) as char
    }
}

/// "#RRGGBB": the code shown in the palettes.
pub open spec fn hex_code(c: Color) -> Seq<char> {
    seq![
        '#',
        hex_digit(c.r as int / 16),
        hex_digit(c.r as int % 16),
        hex_digit(c.g as int / 16),
        hex_digit(c.g as int % 16),
        hex_digit(c.b as int / 16),
        hex_digit(c.b as int % 16),
    ]
}

/// "#RRGGBBAA": the code with alpha, when transparency matters.
pub open spec fn hex_code_rgba(c: Color) -> Seq<char> {
    hex_code(c) + seq![hex_digit(c.a as int / 16), hex_digit(c.a as int % 16)]
}

fn digit_char(n: u8) -> (c: char)
    requires
        n < 16,
    ensures
        c == hex_digit(n as int),
{
    if n < 10 {
        (48 + n) as char
    } else {
        (55 + n) as char
    }
}

/// Appends the two digits of a byte.
fn push_byte(s: &mut String, b: u8)
    ensures
        final(s)@ == old(s)@ + seq![hex_digit(b as int / 16), hex_digit(b as int % 16)],
{
    push_char(s, digit_char(b / 16));
    push_char(s, digit_char(b % 16));
    assert(s@ =~= old(s)@ + seq![hex_digit(b as int / 16), hex_digit(b as int % 16)]);
}

/// The code "#RRGGBB" (no alpha) of a colour.
pub fn to_hex(c: Color) -> (s: String)
    ensures
        s@ == hex_code(c),
{
    let mut s = String::new();
    push_char(&mut s, '#');
    push_byte(&mut s, c.r);
    push_byte(&mut s, c.g);
    push_byte(&mut s, c.b);
    assert(s@ =~= hex_code(c));
    s
}

/// The code "#RRGGBBAA" (with alpha) of a colour.
pub fn to_hex_rgba(c: Color) -> (s: String)
    ensures
        s@ == hex_code_rgba(c),
{
    let mut s = to_hex(c);
    push_byte(&mut s, c.a);
    assert(s@ =~= hex_code_rgba(c));
    s
}

/// White space as Rust's `char::is_whitespace` knows it (Unicode White_Space).
pub open spec fn is_space(c: char) -> bool {
    ||| '\t' <= c <= '\r'
    ||| c == ' '
    ||| c == '\u{85}'
    ||| c == '\u{A0}'
    ||| c == '\u{1680}'
    ||| '\u{2000}' <= c <= '\u{200A}'
    ||| c == '\u{2028}'
    ||| c == '\u{2029}'
    ||| c == '\u{202F}'
    ||| c == '\u{205F}'
    ||| c == '\u{3000}'
}

/// The text without leading white space.
pub open spec fn trim_start(s: Seq<char>) -> Seq<char>
    decreases s.len(),
{
    if s.len() > 0 && is_space(s[0]) {
        trim_start(s.drop_first())
    } else {
        s
    }
}

/// The text without trailing white space.
pub open spec fn trim_end(s: Seq<char>) -> Seq<char>
    decreases s.len(),
{
    if s.len() > 0 && is_space(s.last()) {
        trim_end(s.drop_last())
    } else {
        s
    }
}

/// The text without its leading '#' characters.
pub open spec fn strip_hashes(s: Seq<char>) -> Seq<char>
    decreases s.len(),
{
    if s.len() > 0 && s[0] == '#' {
        strip_hashes(s.drop_first())
    } else {
        s
    }
}

/// The digits of a code: trimmed of white space and of leading '#'.
pub open spec fn hex_body(s: Seq<char>) -> Seq<char> {
    strip_hashes(trim_end(trim_start(s)))
}

/// The value of a hexadecimal digit (either case).
pub open spec fn digit_value(c: char) -> Option<u8> {
    if '0' <= c <= '9' {
        Some(((c as u32) - 48) as u8)
    } else if 'a' <= c <= 'f' {
        Some(((c as u32) - 87) as u8)
    } else if 'A' <= c <= 'F' {
        Some(((c as u32) - 55) as u8)
    } else {
        None
    }
}

/// Every character of `b` is a hexadecimal digit.
pub open spec fn all_digits(b: Seq<char>) -> bool {
    forall|i: int| 0 <= i < b.len() ==> (#[trigger] digit_value(b[i])) is Some
}

/// The value of the digit at `i` of `b`.
pub open spec fn digit_at(b: Seq<char>, i: int) -> int {
    match digit_value(b[i]) {
        Some(v) => v as int,
        None => 0,
    }
}

/// The byte that the pair of digits at `2k` and `2k + 1` of `b` writes.
pub open spec fn byte_at(b: Seq<char>, k: int) -> u8 {
    (16 * digit_at(b, 2 * k) + digit_at(b, 2 * k + 1)) as u8
}

/// The colour a flexible hexadecimal code stands for: with or without '#'
/// and surrounding white space, as RGB (3 digits, each doubled), RRGGBB or
/// RRGGBBAA. Anything else, a character that is not a hexadecimal digit
/// included, stands for no colour.
pub open spec fn parse_hex(s: Seq<char>) -> Option<Color> {
    let b = hex_body(s);
    if !all_digits(b) {
        None
    } else if b.len() == 3 {
        Some(
            Color {
                r: (17 * digit_at(b, 0)) as u8,
                g: (17 * digit_at(b, 1)) as u8,
                b: (17 * digit_at(b, 2)) as u8,
                a: 255,
            },
        )
    } else if b.len() == 6 {
        Some(Color { r: byte_at(b, 0), g: byte_at(b, 1), b: byte_at(b, 2), a: 255 })
    } else if b.len() == 8 {
        Some(Color { r: byte_at(b, 0), g: byte_at(b, 1), b: byte_at(b, 2), a: byte_at(b, 3) })
    } else {
        None
    }
}

pub(crate) fn is_space_char(c: char) -> (b: bool)
    ensures
        b == is_space(c),
{
    ('\t' <= c && c <= '\r') || c == ' ' || c == '\u{85}' || c == '\u{A0}' || c == '\u{1680}' || ('\u{2000}'
        <= c && c <= '\u{200A}') || c == '\u{2028}' || c == '\u{2029}' || c == '\u{202F}' || c == '\u{205F}'
        || c == '\u{3000}'
}

fn digit_of(c: char) -> (r: Option<u8>)
    ensures
        r == digit_value(c),
        r matches Some(v) ==> v < 16,
{
    let u = c as u32;
    if '0' <= c && c <= '9' {
        Some((u - 48) as u8)
    } else if 'a' <= c && c <= 'f' {
        Some((u - 87) as u8)
    } else if 'A' <= c && c <= 'F' {
        Some((u - 55) as u8)
    } else {
        None
    }
}

/// The characters of a text, in order.
fn chars_of(s: &str) -> (v: Vec<char>)
    ensures
        v@ == s@,
{
    let n = s.unicode_len();
    let mut v: Vec<char> = Vec::with_capacity(n);
    let mut i: usize = 0;
    while i < n
        invariant
            n == s@.len(),
            i <= n,
            v@ == s@.take(i as int),
        decreases n - i,
    {
        v.push(s.get_char(i));
        i = i + 1;
        assert(v@ =~= s@.take(i as int));
    }
    assert(v@ =~= s@);
    v
}

/// Reads a flexible hexadecimal code: with or without '#' and surrounding
/// white space, as RGB (3 digits), RRGGBB (6) or RRGGBBAA (8). Returns `None`
/// when the code is not valid.
pub fn from_hex(s: &str) -> (r: Option<Color>)
    ensures
        r == parse_hex(s@),
{
    let chars = chars_of(s);
    let n = chars.len();
    let ghost t = s@;
    let mut lo: usize = 0;
    assert(t.subrange(0, n as int) =~= t);
    while lo < n && is_space_char(chars[lo])
        invariant
            chars@ == t,
            n == t.len(),
            lo <= n,
            trim_start(t) == trim_start(t.subrange(lo as int, n as int)),
        decreases n - lo,
    {
        assert(t.subrange(lo as int, n as int).drop_first() =~= t.subrange(lo + 1, n as int));
        lo = lo + 1;
    }
    assert(trim_start(t) == t.subrange(lo as int, n as int));
    let lo0 = lo;
    let mut hi: usize = n;
    while hi > lo && is_space_char(chars[hi - 1])
        invariant
            chars@ == t,
            n == t.len(),
            lo0 == lo,
            lo <= hi <= n,
            trim_end(trim_start(t)) == trim_end(t.subrange(lo as int, hi as int)),
        decreases hi,
    {
        assert(t.subrange(lo as int, hi as int).drop_last() =~= t.subrange(lo as int, hi - 1));
        hi = hi - 1;
    }
    assert(trim_end(trim_start(t)) == t.subrange(lo as int, hi as int));
    while lo < hi && chars[lo] == '#'
        invariant
            chars@ == t,
            n == t.len(),
            lo <= hi <= n,
            hex_body(t) == strip_hashes(t.subrange(lo as int, hi as int)),
        decreases hi - lo,
    {
        assert(t.subrange(lo as int, hi as int).drop_first() =~= t.subrange(lo + 1, hi as int));
        lo = lo + 1;
    }
    let ghost b = t.subrange(lo as int, hi as int);
    assert(hex_body(t) == b);
    let m = hi - lo;
    if !(m == 3 || m == 6 || m == 8) {
        return None;
    }
    let mut vals: Vec<u8> = Vec::new();
    let mut i: usize = lo;
    while i < hi
        invariant
            chars@ == t,
            n == t.len(),
            lo <= i <= hi <= n,
            b == t.subrange(lo as int, hi as int),
            b == hex_body(s@),
            vals@.len() == i - lo,
            forall|q: int| 0 <= q < i - lo ==> digit_value(#[trigger] b[q]) == Some(vals@[q]) && vals@[q] < 16,
        decreases hi - i,
    {
        match digit_of(chars[i]) {
            Some(v) => {
                vals.push(v);
            },
            None => {
                assert(b[i - lo] == chars@[i as int]);
                assert(!all_digits(b));
                return None;
            },
        }
        i = i + 1;
    }
    assert(all_digits(b)) by {
        assert forall|q: int| 0 <= q < b.len() implies (#[trigger] digit_value(b[q])) is Some by {
            assert(digit_value(b[q]) == Some(vals@[q]));
        }
    }
    assert forall|q: int| 0 <= q < b.len() implies digit_at(b, q) == vals@[q] by {
        assert(digit_value(b[q]) == Some(vals@[q]));
    }
    if m == 3 {
        Some(Color::rgb(vals[0] * 17, vals[1] * 17, vals[2] * 17))
    } else if m == 6 {
        Some(Color::rgb(vals[0] * 16 + vals[1], vals[2] * 16 + vals[3], vals[4] * 16 + vals[5]))
    } else {
        Some(
            Color::rgba(
                vals[0] * 16 + vals[1],
                vals[2] * 16 + vals[3],
                vals[4] * 16 + vals[5],
                vals[6] * 16 + vals[7],
            ),
        )
    }
}

/// A digit written by `to_hex` is read back as its value.
proof fn lemma_hex_digit(n: int)
    requires
        0 <= n < 16,
    ensures
        digit_value(hex_digit(n)) == Some(n as u8),
        hex_digit(n) != '#',
        !is_space(hex_digit(n)),
{
    vstd::utf8::char_u32_cast(hex_digit(n), (if n < 10 { 48 + n } else { 55 + n }) as u32);
}

/// The digits of a code written by `to_hex` or `to_hex_rgba` are those after
/// the '#', and all of them are digits.
proof fn lemma_written_body(s: Seq<char>)
    requires
        s.len() >= 2,
        s[0] == '#',
        forall|i: int| 1 <= i < s.len() ==> exists|n: int| 0 <= n < 16 && #[trigger] s[i] == hex_digit(n),
    ensures
        hex_body(s) == s.drop_first(),
        all_digits(s.drop_first()),
{
    assert(!is_space(s[0]));
    assert(trim_start(s) == s);
    let n = choose|n: int| 0 <= n < 16 && s[s.len() - 1] == hex_digit(n);
    lemma_hex_digit(n);
    assert(trim_end(s) == s);
    let t = s.drop_first();
    let m = choose|m: int| 0 <= m < 16 && s[1] == hex_digit(m);
    lemma_hex_digit(m);
    assert(strip_hashes(t) == t);
    assert(strip_hashes(s) == t);
    assert forall|j: int| 0 <= j < t.len() implies (#[trigger] digit_value(t[j])) is Some by {
        let k = choose|k: int| 0 <= k < 16 && s[j + 1] == hex_digit(k);
        lemma_hex_digit(k);
    }
}

/// The pair of digits of a byte reads back as the byte.
proof fn lemma_pair_of_byte(b: Seq<char>, k: int, v: u8)
    requires
        0 <= k,
        2 * k + 1 < b.len(),
        b[2 * k] == hex_digit(v as int / 16),
        b[2 * k + 1] == hex_digit(v as int % 16),
    ensures
        byte_at(b, k) == v,
{
    lemma_hex_digit(v as int / 16);
    lemma_hex_digit(v as int % 16);
}

/// Reading back the code "#RRGGBB" of a colour gives the colour, made opaque.
pub proof fn law_hex_round_trip(c: Color)
    ensures
        parse_hex(hex_code(c)) == Some(Color { r: c.r, g: c.g, b: c.b, a: 255 }),
{
    let s = hex_code(c);
    assert forall|i: int| 1 <= i < s.len() implies exists|n: int| 0 <= n < 16 && #[trigger] s[i] == hex_digit(n) by {
        if i == 1 { assert(s[i] == hex_digit(c.r as int / 16)); }
        else if i == 2 { assert(s[i] == hex_digit(c.r as int % 16)); }
        else if i == 3 { assert(s[i] == hex_digit(c.g as int / 16)); }
        else if i == 4 { assert(s[i] == hex_digit(c.g as int % 16)); }
        else if i == 5 { assert(s[i] == hex_digit(c.b as int / 16)); }
        else { assert(s[i] == hex_digit(c.b as int % 16)); }
    }
    lemma_written_body(s);
    let b = s.drop_first();
    lemma_pair_of_byte(b, 0, c.r);
    lemma_pair_of_byte(b, 1, c.g);
    lemma_pair_of_byte(b, 2, c.b);
}

/// Reading back the code "#RRGGBBAA" of a colour gives the colour.
pub proof fn law_hex_rgba_round_trip(c: Color)
    ensures
        parse_hex(hex_code_rgba(c)) == Some(c),
{
    let s = hex_code_rgba(c);
    assert forall|i: int| 1 <= i < s.len() implies exists|n: int| 0 <= n < 16 && #[trigger] s[i] == hex_digit(n) by {
        if i == 1 { assert(s[i] == hex_digit(c.r as int / 16)); }
        else if i == 2 { assert(s[i] == hex_digit(c.r as int % 16)); }
        else if i == 3 { assert(s[i] == hex_digit(c.g as int / 16)); }
        else if i == 4 { assert(s[i] == hex_digit(c.g as int % 16)); }
        else if i == 5 { assert(s[i] == hex_digit(c.b as int / 16)); }
        else if i == 6 { assert(s[i] == hex_digit(c.b as int % 16)); }
        else if i == 7 { assert(s[i] == hex_digit(c.a as int / 16)); }
        else { assert(s[i] == hex_digit(c.a as int % 16)); }
    }
    lemma_written_body(s);
    let b = s.drop_first();
    lemma_pair_of_byte(b, 0, c.r);
    lemma_pair_of_byte(b, 1, c.g);
    lemma_pair_of_byte(b, 2, c.b);
    lemma_pair_of_byte(b, 3, c.a);
}

} // verus!
