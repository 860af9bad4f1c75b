//! RGB color values and their 6-hex-digit textual form.
//!
//! A color is parsed from `RRGGBB` or `#RRGGBB`; anything else is an
//! `InvalidColor` error.  Encoding always emits six lowercase hex digits.

use vstd::prelude::*;

verus! {

/// A color with three 8-bit channels.
#[derive(Clone, Copy, PartialEq, Eq, Structural, Debug)]
pub struct RgbColor {
    pub red: u8,
    pub green: u8,
    pub blue: u8,
}

/// Error for a color string of the wrong length or with non-hex characters.
#[derive(Clone, Copy, PartialEq, Eq, Structural, Debug)]
pub struct InvalidColor;

/// Whether `c` is a hexadecimal digit (either case).
pub open spec fn is_hex_digit(c: char) -> bool {
    ('0' as int <= c as int && c as int <= '9' as int)
    || ('a' as int <= c as int && c as int <= 'f' as int)
    || ('A' as int <= c as int && c as int <= 'F' as int)
}

/// Numeric value of a hex digit.
pub open spec fn hex_val(c: char) -> int {
    if '0' as int <= c as int && c as int <= '9' as int {
        c as int - '0' as int
    } else if 'a' as int <= c as int && c as int <= 'f' as int {
        c as int - 'a' as int + 10
    } else {
        c as int - 'A' as int + 10
    }
}

/// The lowercase hex digit for a value in `0..16`.
pub open spec fn hex_char(v: int) -> char {
    if v == 0 { '0' }
    else if v == 1 { '1' }
    else if v == 2 { '2' }
    else if v == 3 { '3' }
    else if v == 4 { '4' }
    else if v == 5 { '5' }
    else if v == 6 { '6' }
    else if v == 7 { '7' }
    else if v == 8 { '8' }
    else if v == 9 { '9' }
    else if v == 10 { 'a' }
    else if v == 11 { 'b' }
    else if v == 12 { 'c' }
    else if v == 13 { 'd' }
    else if v == 14 { 'e' }
    else { 'f' }
}

/// Six lowercase hex digits describing a color, high digit first per channel.
pub open spec fn hex_seq_of(c: RgbColor) -> Seq<char> {
    seq![
        hex_char(c.red as int / 16),
        hex_char(c.red as int % 16),
        hex_char(c.green as int / 16),
        hex_char(c.green as int % 16),
        hex_char(c.blue as int / 16),
        hex_char(c.blue as int % 16),
    ]
}

/// Whether `s` is six hex digits.
pub open spec fn is_hex6(s: Seq<char>) -> bool {
    s.len() == 6 && forall|i: int| 0 <= i < 6 ==> is_hex_digit(#[trigger] s[i])
}

/// The color described by six hex digits.
pub open spec fn color_of_hex6(s: Seq<char>) -> RgbColor {
    RgbColor {
        red: (hex_val(s[0]) * 16 + hex_val(s[1])) as u8,
        green: (hex_val(s[2]) * 16 + hex_val(s[3])) as u8,
        blue: (hex_val(s[4]) * 16 + hex_val(s[5])) as u8,
    }
}

/// The digit part of a color string: the string minus an optional leading `#`.
pub open spec fn color_digits(s: Seq<char>) -> Seq<char> {
    if s.len() > 0 && s[0] == '#' { s.skip(1) } else { s }
}

/// What parsing a color string yields: the digit part must be exactly six
/// hex digits.
pub open spec fn spec_parse_color(s: Seq<char>) -> Result<RgbColor, InvalidColor> {
    if is_hex6(color_digits(s)) {
        Ok(color_of_hex6(color_digits(s)))
    } else {
        Err(InvalidColor)
    }
}

fn hex_val_exec(c: char) -> (r: u8)
    requires
        is_hex_digit(c),
    ensures
        r as int == hex_val(c),
        r < 16,
{
    let u = c as u32;
    if u >= 97 {
        (u - 97 + 10) as u8
    } else if u >= 65 {
        (u - 65 + 10) as u8
    } else {
        (u - 48) as u8
    }
}

fn is_hex_digit_exec(c: char) -> (r: bool)
    ensures
        r == is_hex_digit(c),
{
    let u = c as u32;
    (48 <= u && u <= 57) || (97 <= u && u <= 102) || (65 <= u && u <= 70)
}

/// Parse a color from `RRGGBB` or `#RRGGBB`, rejecting wrong lengths and
/// non-hex characters.
pub fn parse_color(s: &str) -> (r: Result<RgbColor, InvalidColor>)
    ensures
        r == spec_parse_color(s@),
{
    let n = s.unicode_len();
    let start: usize = if n > 0 && s.get_char(0) == '#' { 1 } else { 0 };
    let ghost digits: Seq<char> = color_digits(s@);
    if n - start != 6 {
        assert(digits.len() != 6);
        return Err(InvalidColor);
    }
    let mut vals: Vec<u8> = Vec::new();
    let mut i: usize = 0;
    while i < 6
        invariant
            i <= 6,
            start + 6 == s@.len(),
            start == 1 ==> s@.len() > 0 && s@[0] == '#',
            start == 0 ==> !(s@.len() > 0 && s@[0] == '#'),
            digits == color_digits(s@),
            digits.len() == 6,
            vals@.len() == i,
            forall|j: int| 0 <= j < i ==> is_hex_digit(#[trigger] digits[j]),
            forall|j: int| 0 <= j < i ==> vals@[j] as int == hex_val(#[trigger] digits[j]),
        decreases 6 - i,
    {
        let c = s.get_char(start + i);
        assert(c == digits[i as int]);
        if !is_hex_digit_exec(c) {
            assert(!is_hex6(digits));
            return Err(InvalidColor);
        }
        vals.push(hex_val_exec(c));
        i += 1;
    }
    assert(is_hex6(digits));
    let r = RgbColor {
        red: vals[0] * 16 + vals[1],
        green: vals[2] * 16 + vals[3],
        blue: vals[4] * 16 + vals[5],
    };
    assert(r == color_of_hex6(digits));
    Ok(r)
}

fn hex_digit_str(v: u8) -> (r: &'static str)
    requires
        v < 16,
    ensures
        r@ =~= seq![hex_char(v as int)],
{
    proof {
        reveal_strlit("0");
        reveal_strlit("1");
        reveal_strlit("2");
        reveal_strlit("3");
        reveal_strlit("4");
        reveal_strlit("5");
        reveal_strlit("6");
        reveal_strlit("7");
        reveal_strlit("8");
        reveal_strlit("9");
        reveal_strlit("a");
        reveal_strlit("b");
        reveal_strlit("c");
        reveal_strlit("d");
        reveal_strlit("e");
        reveal_strlit("f");
    }
    match v {
        0 => "0",
        1 => "1",
        2 => "2",
        3 => "3",
        4 => "4",
        5 => "5",
        6 => "6",
        7 => "7",
        8 => "8",
        9 => "9",
        10 => "a",
        11 => "b",
        12 => "c",
        13 => "d",
        14 => "e",
        _ => "f",
    }
}

/// Encode a color as six lowercase hex digits (no leading `#`).
pub fn color_to_hex(c: &RgbColor) -> (r: String)
    ensures
        r@ == hex_seq_of(*c),
{
    let mut out = String::new();
    out.append(hex_digit_str(c.red / 16));
    out.append(hex_digit_str(c.red % 16));
    out.append(hex_digit_str(c.green / 16));
    out.append(hex_digit_str(c.green % 16));
    out.append(hex_digit_str(c.blue / 16));
    out.append(hex_digit_str(c.blue % 16));
    proof {
        assert(out@ =~= hex_seq_of(*c));
    }
    out
}

proof fn lemma_hex_char_val(v: int)
    requires
        0 <= v < 16,
    ensures
        is_hex_digit(hex_char(v)),
        hex_val(hex_char(v)) == v,
        hex_char(v) != '#',
        hex_char(v) != '-',
{
}

/// The hex form of a color is six hex digits, contains neither `#` nor `-`,
/// and describes the color itself.
pub proof fn lemma_hex_seq_props(c: RgbColor)
    ensures
        is_hex6(hex_seq_of(c)),
        color_of_hex6(hex_seq_of(c)) == c,
        forall|i: int| 0 <= i < hex_seq_of(c).len() ==> hex_seq_of(c)[i] != '-',
        forall|i: int| 0 <= i < hex_seq_of(c).len() ==> hex_seq_of(c)[i] != '#',
{
    let s = hex_seq_of(c);
    lemma_hex_char_val(c.red as int / 16);
    lemma_hex_char_val(c.red as int % 16);
    lemma_hex_char_val(c.green as int / 16);
    lemma_hex_char_val(c.green as int % 16);
    lemma_hex_char_val(c.blue as int / 16);
    lemma_hex_char_val(c.blue as int % 16);
    assert forall|i: int| 0 <= i < 6 implies is_hex_digit(#[trigger] s[i]) && s[i] != '-' && s[i] != '#' by {
        assert(s[0] == hex_char(c.red as int / 16));
        assert(s[1] == hex_char(c.red as int % 16));
        assert(s[2] == hex_char(c.green as int / 16));
        assert(s[3] == hex_char(c.green as int % 16));
        assert(s[4] == hex_char(c.blue as int / 16));
        assert(s[5] == hex_char(c.blue as int % 16));
    }
    assert(color_of_hex6(s).red == c.red);
    assert(color_of_hex6(s).green == c.green);
    assert(color_of_hex6(s).blue == c.blue);
}

/// Law: a color encoded to hex parses back to the same color, so the
/// textual form loses nothing.
pub proof fn lemma_color_hex_round_trip(c: RgbColor)
    ensures
        spec_parse_color(hex_seq_of(c)) == Ok::<RgbColor, InvalidColor>(c),
{
    let s = hex_seq_of(c);
    lemma_hex_seq_props(c);
    assert(s[0] != '#');
    assert(color_digits(s) == s);
}

} // verus!
