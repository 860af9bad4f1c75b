//! Decimal text for unsigned integers: formatting, parsing, and the proof
//! that the two invert each other.  Subject-message ids travel through
//! interaction tokens in this form.

use vstd::prelude::*;
use vstd::arithmetic::div_mod::{lemma_div_pos_is_pos, lemma_fundamental_div_mod, lemma_div_decreases};

verus! {

/// Whether `c` is a decimal digit.
pub open spec fn is_dec_digit(c: char) -> bool {
    '0' as int <= c as int && c as int <= '9' as int
}

/// Numeric value of a decimal digit.
pub open spec fn dec_val(c: char) -> int {
    c as int - '0' as int
}

/// The decimal digit for a value in `0..10`.
pub open spec fn dec_char(v: int) -> char {
    if v == 0 { '0' }
    else if v == 1 { '1' }
    else if v == 2 { '2' }
    else if v == 3 { '3' }
    else if v == 4 { '4' }
    else if v == 5 { '5' }
    else if v == 6 { '6' }
    else if v == 7 { '7' }
    else if v == 8 { '8' }
    else { '9' }
}

/// The decimal digit string of `n`, most significant digit first, with no
/// leading zeros (and `"0"` for zero).
pub open spec fn dec_seq_of(n: int) -> Seq<char>
    decreases n,
{
    if n < 10 {
        seq![dec_char(n)]
    } else {
        dec_seq_of(n / 10).push(dec_char(n % 10))
    }
}

/// Whether every character of `s` is a decimal digit.
pub open spec fn all_dec_digits(s: Seq<char>) -> bool {
    forall|i: int| 0 <= i < s.len() ==> is_dec_digit(#[trigger] s[i])
}

/// The numeric value of a digit string, read left to right.
pub open spec fn dec_value(s: Seq<char>) -> int
    decreases s.len(),
{
    if s.len() == 0 {
        0
    } else {
        dec_value(s.drop_last()) * 10 + dec_val(s.last())
    }
}

proof fn lemma_dec_char_val(v: int)
    requires
        0 <= v < 10,
    ensures
        is_dec_digit(dec_char(v)),
        dec_val(dec_char(v)) == v,
        dec_char(v) != '-',
{
}

/// Law: the decimal text of `n` is all digits and evaluates back to `n`.
pub proof fn lemma_dec_round_trip(n: int)
    requires
        0 <= n,
    ensures
        all_dec_digits(dec_seq_of(n)),
        dec_value(dec_seq_of(n)) == n,
        dec_seq_of(n).len() >= 1,
    decreases n,
{
    if n < 10 {
        lemma_dec_char_val(n);
        let s = dec_seq_of(n);
        assert(s.drop_last() =~= Seq::<char>::empty());
        assert(dec_value(Seq::<char>::empty()) == 0);
        assert(dec_value(s) == dec_value(s.drop_last()) * 10 + dec_val(s.last()));
        assert(s.last() == dec_char(n));
    } else {
        lemma_div_pos_is_pos(n, 10);
        lemma_div_decreases(n, 10);
        lemma_dec_round_trip(n / 10);
        lemma_fundamental_div_mod(n, 10);
        lemma_dec_char_val(n % 10);
        let s = dec_seq_of(n);
        assert(s == dec_seq_of(n / 10).push(dec_char(n % 10)));
        assert(s.drop_last() =~= dec_seq_of(n / 10));
        assert(s.last() == dec_char(n % 10));
        assert(dec_value(s) == dec_value(dec_seq_of(n / 10)) * 10 + (n % 10));
        assert forall|i: int| 0 <= i < s.len() implies is_dec_digit(#[trigger] s[i]) by {
            if i < s.len() - 1 {
                assert(s[i] == dec_seq_of(n / 10)[i]);
            }
        }
    }
}

fn dec_digit_str(v: u64) -> (r: &'static str)
    requires
        v < 10,
    ensures
        r@ =~= seq![dec_char(v as int)],
{
    proof {
        reveal_strlit("0");
        reveal_strlit("1");
        reveal_strlit("2");
        reveal_strlit("3");
        reveal_strlit("4");
        reveal_strlit("5");
        reveal_strlit("6");
        reveal_strlit("7");
        reveal_strlit("8");
        reveal_strlit("9");
    }
    match v {
        0 => "0",
        1 => "1",
        2 => "2",
        3 => "3",
        4 => "4",
        5 => "5",
        6 => "6",
        7 => "7",
        8 => "8",
        _ => "9",
    }
}

/// Format `n` as decimal text.
pub fn u64_to_dec(n: u64) -> (r: String)
    ensures
        r@ == dec_seq_of(n as int),
{
    if n < 10 {
        let mut out = String::new();
        out.append(dec_digit_str(n));
        proof {
            assert(out@ =~= dec_seq_of(n as int));
        }
        return out;
    }
    let mut acc = String::new();
    let mut m: u64 = n;
    while m > 0
        invariant
            m <= n,
            m > 0 ==> dec_seq_of(n as int) =~= dec_seq_of(m as int) + acc@,
            m == 0 ==> dec_seq_of(n as int) =~= acc@,
        decreases m,
    {
        let d = m % 10;
        let mut piece = String::new();
        piece.append(dec_digit_str(d));
        let next = piece.concat(acc.as_str());
        proof {
            lemma_div_pos_is_pos(m as int, 10);
            lemma_div_decreases(m as int, 10);
            if m >= 10 {
                assert(dec_seq_of(m as int) == dec_seq_of(m as int / 10).push(dec_char(m as int % 10)));
                assert(dec_seq_of(m as int) =~= dec_seq_of(m as int / 10) + seq![dec_char(m as int % 10)]);
                assert(dec_seq_of(m as int / 10) + (seq![dec_char(m as int % 10)] + acc@)
                    =~= (dec_seq_of(m as int / 10) + seq![dec_char(m as int % 10)]) + acc@);
            } else {
                assert(dec_seq_of(m as int) =~= seq![dec_char(m as int)]);
            }
        }
        acc = next;
        m = m / 10;
    }
    proof {
        assert(acc@ =~= dec_seq_of(n as int));
    }
    acc
}

/// What parsing a digit field yields: `Some` exactly for a nonempty
/// all-digit string whose value fits in `u64` and is at least one.
pub open spec fn spec_parse_positive(s: Seq<char>) -> Option<u64> {
    if s.len() >= 1 && all_dec_digits(s) && 1 <= dec_value(s) <= u64::MAX {
        Some(dec_value(s) as u64)
    } else {
        None
    }
}

/// Parse the characters `s[lo..hi]` as a positive decimal integer.
pub fn parse_positive_range(s: &str, lo: usize, hi: usize) -> (r: Option<u64>)
    requires
        lo <= hi <= s@.len(),
    ensures
        r == spec_parse_positive(s@.subrange(lo as int, hi as int)),
{
    let ghost f = s@.subrange(lo as int, hi as int);
    if lo == hi {
        return None;
    }
    let mut acc: u64 = 0;
    let mut over: bool = false;
    let mut i: usize = lo;
    while i < hi
        invariant
            lo <= i <= hi <= s@.len(),
            f == s@.subrange(lo as int, hi as int),
            all_dec_digits(f.take(i - lo)),
            !over ==> acc as int == dec_value(f.take(i - lo)),
            over ==> dec_value(f.take(i - lo)) > u64::MAX,
        decreases hi - i,
    {
        let c = s.get_char(i);
        assert(c == f[i - lo]);
        let u = c as u32;
        if !(48 <= u && u <= 57) {
            assert(!is_dec_digit(f[i - lo]));
            assert(!all_dec_digits(f));
            return None;
        }
        let d = (u - 48) as u64;
        assert(d as int == dec_val(f[i - lo]));
        proof {
            assert(f.take(i + 1 - lo).drop_last() =~= f.take(i - lo));
            assert(f.take(i + 1 - lo).last() == f[i - lo]);
        }
        if over {
            proof {
                assert(dec_value(f.take(i + 1 - lo)) == dec_value(f.take(i - lo)) * 10 + d);
                assert(dec_value(f.take(i - lo)) * 10 >= dec_value(f.take(i - lo)));
            }
        } else {
            let wide: u128 = acc as u128 * 10 + d as u128;
            if wide > u64::MAX as u128 {
                over = true;
            } else {
                acc = wide as u64;
            }
        }
        i += 1;
    }
    proof {
        assert(f.take(hi - lo) =~= f);
    }
    if over {
        return None;
    }
    if acc == 0 {
        return None;
    }
    Some(acc)
}

} // verus!
