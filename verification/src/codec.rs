//! The interaction token codec.
//!
//! Because the chat platform keeps no per-user session, every UI control
//! carries its whole configuration in a short token:
//!
//! ```text
//! action "-" apply-flag "-" auto-flag "-" background "-" subject-id
//! ```
//!
//! Flags are `0` or `1`; the background field is empty (unset), six hex
//! digits (a literal color), or the reserved sentinel `000001` meaning
//! "ask the user through a modal".  The subject id is always the last
//! field, so the option set can grow without breaking id extraction, and
//! unknown fields between the background and the id are ignored.  Decoding
//! never panics: a malformed token yields a `DecodeError`.

use vstd::prelude::*;
use crate::color::{
    RgbColor, is_hex6, color_of_hex6, hex_seq_of, hex_val, is_hex_digit, color_to_hex,
    lemma_hex_seq_props,
};
use crate::numeric::{
    dec_seq_of, spec_parse_positive, parse_positive_range, u64_to_dec, lemma_dec_round_trip,
    is_dec_digit,
};

verus! {

/// The background choice carried by a token: absent, "ask the user",
/// or a literal color.
#[derive(Clone, Copy, PartialEq, Eq, Structural, Debug)]
pub enum Background {
    Unset,
    Ask,
    Color(RgbColor),
}

/// The option record that every control round-trips through its token.
#[derive(Clone, Copy, PartialEq, Eq, Structural, Debug)]
pub struct RecolorOptions {
    pub apply: bool,
    pub auto_adjust: bool,
    pub background: Background,
}

impl RecolorOptions {
    /// The options a fresh "darken" control starts from.
    pub fn defaults() -> (r: RecolorOptions)
        ensures
            r == (RecolorOptions { apply: false, auto_adjust: false, background: Background::Unset }),
    {
        RecolorOptions { apply: false, auto_adjust: false, background: Background::Unset }
    }
}

/// Why a token failed to decode.
#[derive(Clone, Copy, PartialEq, Eq, Structural, Debug)]
pub enum DecodeError {
    WrongFieldCount,
    NonNumericFlag,
    InvalidColorDigits,
    NonNumericSubjectId,
}

/// The action named by a token's leading field.
#[derive(Clone, Copy, PartialEq, Eq, Structural, Debug)]
pub enum TokenAction {
    Darken,
    Delete,
    Clear,
    Stop,
}

/// The reserved color that stands for "ask the user": so dark that no one
/// plausibly picks it on purpose, yet not a valid opaque choice.
pub open spec fn sentinel_color() -> RgbColor {
    RgbColor { red: 0, green: 0, blue: 1 }
}

/// Executable twin of [`sentinel_color`].
pub fn sentinel_color_exec() -> (r: RgbColor)
    ensures
        r == sentinel_color(),
{
    RgbColor { red: 0, green: 0, blue: 1 }
}

/// Positions of the delimiter `-` in `s`, in increasing order.
pub open spec fn delims_of(s: Seq<char>) -> Seq<int>
    decreases s.len(),
{
    if s.len() == 0 {
        Seq::empty()
    } else if s.last() == '-' {
        delims_of(s.drop_last()).push(s.len() - 1)
    } else {
        delims_of(s.drop_last())
    }
}

proof fn lemma_delims_bounds(s: Seq<char>)
    ensures
        forall|i: int| 0 <= i < delims_of(s).len()
            ==> 0 <= #[trigger] delims_of(s)[i] < s.len() && s[delims_of(s)[i]] == '-',
        forall|i: int, j: int| 0 <= i < j < delims_of(s).len()
            ==> #[trigger] delims_of(s)[i] < #[trigger] delims_of(s)[j],
    decreases s.len(),
{
    if s.len() > 0 {
        lemma_delims_bounds(s.drop_last());
        let d = delims_of(s.drop_last());
        assert forall|i: int| 0 <= i < d.len() implies s[d[i]] == '-' by {
            assert(s.drop_last()[d[i]] == '-');
        }
    }
}

proof fn lemma_delims_concat(a: Seq<char>, b: Seq<char>)
    ensures
        delims_of(a + b) == delims_of(a) + delims_of(b).map_values(|p: int| p + a.len()),
    decreases b.len(),
{
    if b.len() == 0 {
        assert(a + b =~= a);
        assert(delims_of(b).map_values(|p: int| p + a.len()) =~= Seq::<int>::empty());
        assert(delims_of(a) + Seq::<int>::empty() =~= delims_of(a));
    } else {
        lemma_delims_concat(a, b.drop_last());
        assert((a + b).drop_last() =~= a + b.drop_last());
        assert((a + b).last() == b.last());
        if b.last() == '-' {
            assert(delims_of(a + b) == delims_of(a + b.drop_last()).push((a + b).len() - 1));
            assert(delims_of(b) == delims_of(b.drop_last()).push(b.len() - 1));
            assert(delims_of(b).map_values(|p: int| p + a.len())
                =~= delims_of(b.drop_last()).map_values(|p: int| p + a.len()).push(b.len() - 1 + a.len()));
            assert(delims_of(a) + delims_of(b).map_values(|p: int| p + a.len())
                =~= (delims_of(a) + delims_of(b.drop_last()).map_values(|p: int| p + a.len())).push((a + b).len() - 1));
        } else {
            assert(delims_of(a + b) == delims_of(a + b.drop_last()));
            assert(delims_of(b) == delims_of(b.drop_last()));
        }
    }
}

proof fn lemma_delims_none(s: Seq<char>)
    requires
        forall|i: int| 0 <= i < s.len() ==> s[i] != '-',
    ensures
        delims_of(s) == Seq::<int>::empty(),
    decreases s.len(),
{
    if s.len() > 0 {
        assert forall|i: int| 0 <= i < s.drop_last().len() implies s.drop_last()[i] != '-' by {
            assert(s.drop_last()[i] == s[i]);
        }
        lemma_delims_none(s.drop_last());
        assert(s.last() == s[s.len() - 1]);
    }
}

/// A single field as a flag: exactly `0` or `1`.
pub open spec fn spec_parse_flag(f: Seq<char>) -> Option<bool> {
    if f.len() == 1 && f[0] == '0' {
        Some(false)
    } else if f.len() == 1 && f[0] == '1' {
        Some(true)
    } else {
        None
    }
}

/// A background field: empty, the sentinel, or six hex digits.
pub open spec fn spec_parse_bg(f: Seq<char>) -> Result<Background, DecodeError> {
    if f.len() == 0 {
        Ok(Background::Unset)
    } else if is_hex6(f) {
        if color_of_hex6(f) == sentinel_color() {
            Ok(Background::Ask)
        } else {
            Ok(Background::Color(color_of_hex6(f)))
        }
    } else {
        Err(DecodeError::InvalidColorDigits)
    }
}

/// What decoding a token yields.  Fields are cut at the delimiter
/// positions; a token needs at least an action, an apply flag and a
/// subject id; the auto flag and the background are optional and default
/// when missing; fields between the background and the trailing subject
/// id are ignored for forward compatibility.
pub open spec fn spec_decode(t: Seq<char>) -> Result<(RecolorOptions, u64), DecodeError> {
    let d = delims_of(t);
    let k = d.len() as int;
    if k < 2 {
        Err(DecodeError::WrongFieldCount)
    } else {
        match spec_parse_flag(t.subrange(d[0] + 1, d[1])) {
            None => Err(DecodeError::NonNumericFlag),
            Some(apply) => {
                let auto_r = if k >= 3 {
                    spec_parse_flag(t.subrange(d[1] + 1, d[2]))
                } else {
                    Some(false)
                };
                match auto_r {
                    None => Err(DecodeError::NonNumericFlag),
                    Some(auto_adjust) => {
                        let bg_r = if k >= 4 {
                            spec_parse_bg(t.subrange(d[2] + 1, d[3]))
                        } else {
                            Ok(Background::Unset)
                        };
                        match bg_r {
                            Err(e) => Err(e),
                            Ok(background) => {
                                match spec_parse_positive(t.subrange(d[k - 1] + 1, t.len() as int)) {
                                    None => Err(DecodeError::NonNumericSubjectId),
                                    Some(id) => Ok(
                                        (RecolorOptions { apply, auto_adjust, background }, id),
                                    ),
                                }
                            },
                        }
                    },
                }
            },
        }
    }
}

/// The single-character flag field for `b`.
pub open spec fn flag_seq(b: bool) -> Seq<char> {
    if b {
        seq!['1']
    } else {
        seq!['0']
    }
}

/// The background field emitted for `bg`.
pub open spec fn bg_seq(bg: Background) -> Seq<char> {
    match bg {
        Background::Unset => Seq::empty(),
        Background::Ask => hex_seq_of(sentinel_color()),
        Background::Color(c) => hex_seq_of(c),
    }
}

/// The token emitted for a "darken" control.
pub open spec fn spec_encode(o: RecolorOptions, subject_id: u64, apply: bool) -> Seq<char> {
    "darken"@ + seq!['-'] + flag_seq(apply) + seq!['-'] + flag_seq(o.auto_adjust) + seq!['-']
        + bg_seq(o.background) + seq!['-'] + dec_seq_of(subject_id as int)
}

/// Encode an option record into a "darken" token carrying `subject_id`,
/// with the apply flag taken from the `apply` argument.
pub fn encode(o: &RecolorOptions, subject_id: u64, apply: bool) -> (r: String)
    ensures
        r@ == spec_encode(*o, subject_id, apply),
{
    let mut t = String::from_str("darken");
    t.append("-");
    t.append(if apply { "1" } else { "0" });
    t.append("-");
    t.append(if o.auto_adjust { "1" } else { "0" });
    t.append("-");
    match o.background {
        Background::Unset => {},
        Background::Ask => {
            let h = color_to_hex(&sentinel_color_exec());
            t.append(h.as_str());
        },
        Background::Color(c) => {
            let h = color_to_hex(&c);
            t.append(h.as_str());
        },
    }
    t.append("-");
    let ds = u64_to_dec(subject_id);
    t.append(ds.as_str());
    proof {
        reveal_strlit("-");
        reveal_strlit("0");
        reveal_strlit("1");
        assert("-"@ =~= seq!['-']);
        assert("0"@ =~= seq!['0']);
        assert("1"@ =~= seq!['1']);
        assert(t@ =~= spec_encode(*o, subject_id, apply));
    }
    t
}

fn parse_flag_range(s: &str, lo: usize, hi: usize) -> (r: Option<bool>)
    requires
        lo <= hi <= s@.len(),
    ensures
        r == spec_parse_flag(s@.subrange(lo as int, hi as int)),
{
    let ghost f = s@.subrange(lo as int, hi as int);
    if hi - lo != 1 {
        return None;
    }
    let c = s.get_char(lo);
    assert(c == f[0]);
    let u = c as u32;
    if u == 48 {
        assert(f[0] == '0');
        Some(false)
    } else if u == 49 {
        assert(f[0] == '1');
        Some(true)
    } else {
        assert(f[0] != '0' && f[0] != '1');
        None
    }
}

fn parse_bg_range(s: &str, lo: usize, hi: usize) -> (r: Result<Background, DecodeError>)
    requires
        lo <= hi <= s@.len(),
    ensures
        r == spec_parse_bg(s@.subrange(lo as int, hi as int)),
{
    let ghost f = s@.subrange(lo as int, hi as int);
    if lo == hi {
        return Ok(Background::Unset);
    }
    if hi - lo != 6 {
        assert(!is_hex6(f));
        return Err(DecodeError::InvalidColorDigits);
    }
    let mut vals: Vec<u8> = Vec::new();
    let mut i: usize = 0;
    while i < 6
        invariant
            i <= 6,
            lo + 6 == hi <= s@.len(),
            f == s@.subrange(lo as int, hi as int),
            f.len() == 6,
            vals@.len() == i,
            forall|j: int| 0 <= j < i ==> is_hex_digit(#[trigger] f[j]),
            forall|j: int| 0 <= j < i ==> vals@[j] as int == hex_val(#[trigger] f[j]),
            forall|j: int| 0 <= j < i ==> vals@[j] < 16,
        decreases 6 - i,
    {
        let c = s.get_char(lo + i);
        assert(c == f[i as int]);
        let u = c as u32;
        if !((48 <= u && u <= 57) || (97 <= u && u <= 102) || (65 <= u && u <= 70)) {
            assert(!is_hex_digit(f[i as int]));
            assert(!is_hex6(f));
            return Err(DecodeError::InvalidColorDigits);
        }
        let v: u8 = if u >= 97 {
            (u - 97 + 10) as u8
        } else if u >= 65 {
            (u - 65 + 10) as u8
        } else {
            (u - 48) as u8
        };
        assert(v as int == hex_val(f[i as int]));
        vals.push(v);
        i += 1;
    }
    assert(is_hex6(f));
    let c = RgbColor {
        red: vals[0] * 16 + vals[1],
        green: vals[2] * 16 + vals[3],
        blue: vals[4] * 16 + vals[5],
    };
    assert(c == color_of_hex6(f));
    if c == sentinel_color_exec() {
        Ok(Background::Ask)
    } else {
        Ok(Background::Color(c))
    }
}

fn find_delims(s: &str) -> (r: Vec<usize>)
    ensures
        r@.map_values(|p: usize| p as int) == delims_of(s@),
{
    let n = s.unicode_len();
    let mut r: Vec<usize> = Vec::new();
    let mut i: usize = 0;
    while i < n
        invariant
            i <= n == s@.len(),
            r@.map_values(|p: usize| p as int) == delims_of(s@.take(i as int)),
        decreases n - i,
    {
        let c = s.get_char(i);
        proof {
            assert(s@.take(i + 1).drop_last() =~= s@.take(i as int));
            assert(s@.take(i + 1).last() == s@[i as int]);
        }
        if c == '-' {
            r.push(i);
            proof {
                assert(r@.map_values(|p: usize| p as int)
                    =~= delims_of(s@.take(i as int)).push(i as int));
            }
        }
        i += 1;
    }
    proof {
        assert(s@.take(n as int) =~= s@);
    }
    r
}

/// Decode a token into its option record and subject id.  Total: every
/// string yields either a record or a `DecodeError`, never a fault.
pub fn decode(t: &str) -> (r: Result<(RecolorOptions, u64), DecodeError>)
    ensures
        r == spec_decode(t@),
{
    let n = t.unicode_len();
    let d = find_delims(t);
    proof {
        lemma_delims_bounds(t@);
    }
    let ghost ds = delims_of(t@);
    let k = d.len();
    assert(ds.len() == k);
    if k < 2 {
        return Err(DecodeError::WrongFieldCount);
    }
    assert(forall|i: int| 0 <= i < k ==> d@[i] as int == ds[i]);
    let apply = match parse_flag_range(t, d[0] + 1, d[1]) {
        Some(b) => b,
        None => {
            return Err(DecodeError::NonNumericFlag);
        },
    };
    let auto_adjust = if k >= 3 {
        match parse_flag_range(t, d[1] + 1, d[2]) {
            Some(b) => b,
            None => {
                return Err(DecodeError::NonNumericFlag);
            },
        }
    } else {
        false
    };
    let background = if k >= 4 {
        match parse_bg_range(t, d[2] + 1, d[3]) {
            Ok(bg) => bg,
            Err(e) => {
                return Err(e);
            },
        }
    } else {
        Background::Unset
    };
    match parse_positive_range(t, d[k - 1] + 1, n) {
        Some(id) => Ok((RecolorOptions { apply, auto_adjust, background }, id)),
        None => Err(DecodeError::NonNumericSubjectId),
    }
}

proof fn lemma_encode_delims(o: RecolorOptions, subject_id: u64, apply: bool)
    requires
        1 <= subject_id,
    ensures
        ({
            let a = "darken"@;
            let f1 = flag_seq(apply);
            let f2 = flag_seq(o.auto_adjust);
            let f3 = bg_seq(o.background);
            let f4 = dec_seq_of(subject_id as int);
            delims_of(spec_encode(o, subject_id, apply)) =~= seq![
                a.len() as int,
                a.len() as int + 1 + f1.len(),
                a.len() as int + 2 + f1.len() + f2.len(),
                a.len() as int + 3 + f1.len() + f2.len() + f3.len(),
            ]
        }),
{
    let a = "darken"@;
    let dash = seq!['-'];
    let f1 = flag_seq(apply);
    let f2 = flag_seq(o.auto_adjust);
    let f3 = bg_seq(o.background);
    let f4 = dec_seq_of(subject_id as int);
    reveal_strlit("darken");
    assert forall|i: int| 0 <= i < a.len() implies a[i] != '-' by {
        assert(a[0] == 'd');
        assert(a[1] == 'a');
        assert(a[2] == 'r');
        assert(a[3] == 'k');
        assert(a[4] == 'e');
        assert(a[5] == 'n');
    }
    lemma_delims_none(a);
    lemma_delims_none(f1);
    lemma_delims_none(f2);
    match o.background {
        Background::Unset => {},
        Background::Ask => {
            lemma_hex_seq_props(sentinel_color());
        },
        Background::Color(c) => {
            lemma_hex_seq_props(c);
        },
    }
    lemma_delims_none(f3);
    lemma_dec_round_trip(subject_id as int);
    assert forall|i: int| 0 <= i < f4.len() implies f4[i] != '-' by {
        assert(is_dec_digit(f4[i]));
    }
    lemma_delims_none(f4);
    assert(dash.drop_last() =~= Seq::<char>::empty());
    assert(dash.last() == '-');
    assert(delims_of(Seq::<char>::empty()) == Seq::<int>::empty());
    assert(delims_of(dash) == delims_of(dash.drop_last()).push(dash.len() - 1));
    assert(delims_of(dash) =~= seq![0int]);
    let t1 = a + dash;
    let t2 = t1 + f1;
    let t3 = t2 + dash;
    let t4 = t3 + f2;
    let t5 = t4 + dash;
    let t6 = t5 + f3;
    let t7 = t6 + dash;
    let t8 = t7 + f4;
    lemma_delims_concat(a, dash);
    assert(delims_of(t1) =~= seq![a.len() as int]);
    lemma_delims_concat(t1, f1);
    assert(delims_of(t2) =~= seq![a.len() as int]);
    lemma_delims_concat(t2, dash);
    assert(delims_of(t3) =~= seq![a.len() as int, a.len() as int + 1 + f1.len()]);
    lemma_delims_concat(t3, f2);
    assert(delims_of(t4) =~= delims_of(t3));
    lemma_delims_concat(t4, dash);
    assert(delims_of(t5) =~= delims_of(t4).push(t4.len() as int));
    lemma_delims_concat(t5, f3);
    assert(delims_of(t6) =~= delims_of(t5));
    lemma_delims_concat(t6, dash);
    assert(delims_of(t7) =~= delims_of(t6).push(t6.len() as int));
    lemma_delims_concat(t7, f4);
    assert(delims_of(t8) =~= delims_of(t7));
    assert(spec_encode(o, subject_id, apply) == t8);
}

/// Law: a token decodes back to the record and subject id it was encoded
/// from (with the apply flag as given to `encode`).  The one value the
/// grammar cannot express is a literal background equal to the reserved
/// sentinel color, which decodes as "ask".
pub proof fn lemma_token_round_trip(o: RecolorOptions, subject_id: u64, apply: bool)
    requires
        1 <= subject_id,
        o.background != Background::Color(sentinel_color()),
    ensures
        spec_decode(spec_encode(o, subject_id, apply)) == Ok::<_, DecodeError>(
            (
                RecolorOptions {
                    apply,
                    auto_adjust: o.auto_adjust,
                    background: o.background,
                },
                subject_id,
            ),
        ),
{
    let a = "darken"@;
    let dash = seq!['-'];
    let f1 = flag_seq(apply);
    let f2 = flag_seq(o.auto_adjust);
    let f3 = bg_seq(o.background);
    let f4 = dec_seq_of(subject_id as int);
    let t = spec_encode(o, subject_id, apply);
    reveal_strlit("darken");
    lemma_encode_delims(o, subject_id, apply);
    lemma_dec_round_trip(subject_id as int);
    let d = delims_of(t);
    let p0 = a.len() as int;
    let p1 = a.len() as int + 1 + f1.len();
    let p2 = a.len() as int + 2 + f1.len() + f2.len();
    let p3 = a.len() as int + 3 + f1.len() + f2.len() + f3.len();
    assert(d.len() == 4);
    assert(d[0] == p0 && d[1] == p1 && d[2] == p2 && d[3] == p3);
    assert(t.subrange(p0 + 1, p1) =~= f1);
    assert(t.subrange(p1 + 1, p2) =~= f2);
    assert(t.subrange(p2 + 1, p3) =~= f3);
    assert(t.subrange(p3 + 1, t.len() as int) =~= f4);
    assert(spec_parse_flag(f1) == Some(apply));
    assert(spec_parse_flag(f2) == Some(o.auto_adjust));
    match o.background {
        Background::Unset => {
            assert(spec_parse_bg(f3) == Ok::<_, DecodeError>(Background::Unset));
        },
        Background::Ask => {
            lemma_hex_seq_props(sentinel_color());
            assert(spec_parse_bg(f3) == Ok::<_, DecodeError>(Background::Ask));
        },
        Background::Color(c) => {
            lemma_hex_seq_props(c);
            assert(spec_parse_bg(f3) == Ok::<_, DecodeError>(Background::Color(c)));
        },
    }
    assert(spec_parse_positive(f4) == Some(subject_id));
}

/// Law: whatever the option fields hold, the subject id of an encoded
/// token is recovered from the trailing field.
pub proof fn lemma_subject_id_of_encoded(o: RecolorOptions, subject_id: u64, apply: bool)
    requires
        1 <= subject_id,
    ensures
        spec_subject_id_of(spec_encode(o, subject_id, apply)) == Some(subject_id),
{
    let t = spec_encode(o, subject_id, apply);
    let a = "darken"@;
    let f1 = flag_seq(apply);
    let f2 = flag_seq(o.auto_adjust);
    let f3 = bg_seq(o.background);
    let f4 = dec_seq_of(subject_id as int);
    lemma_encode_delims(o, subject_id, apply);
    lemma_dec_round_trip(subject_id as int);
    let d = delims_of(t);
    assert(d.len() == 4);
    let p3 = a.len() as int + 3 + f1.len() + f2.len() + f3.len();
    assert(d[3] == p3);
    assert(t.subrange(p3 + 1, t.len() as int) =~= f4);
    assert(spec_parse_positive(f4) == Some(subject_id));
}

/// Whether `p` is a prefix of `t`.
pub open spec fn is_prefix(p: Seq<char>, t: Seq<char>) -> bool {
    t.len() >= p.len() && t.take(p.len() as int) == p
}

pub fn has_prefix(s: &str, p: &str) -> (r: bool)
    ensures
        r == is_prefix(p@, s@),
{
    let n = s.unicode_len();
    let m = p.unicode_len();
    if n < m {
        return false;
    }
    let mut i: usize = 0;
    while i < m
        invariant
            i <= m == p@.len() <= n == s@.len(),
            forall|j: int| 0 <= j < i ==> s@[j] == p@[j],
        decreases m - i,
    {
        if s.get_char(i) != p.get_char(i) {
            assert(s@.take(m as int)[i as int] != p@[i as int]);
            return false;
        }
        i += 1;
    }
    proof {
        assert(s@.take(m as int) =~= p@);
    }
    true
}

/// The action a token's leading field names, judged by its prefix as the
/// interaction dispatcher does.
pub open spec fn spec_action_of(t: Seq<char>) -> Option<TokenAction> {
    if is_prefix("darken-"@, t) {
        Some(TokenAction::Darken)
    } else if is_prefix("delete-"@, t) {
        Some(TokenAction::Delete)
    } else if is_prefix("clear-"@, t) {
        Some(TokenAction::Clear)
    } else if is_prefix("stop-"@, t) {
        Some(TokenAction::Stop)
    } else {
        None
    }
}

/// Classify a token by its action prefix; `None` for a control this bot
/// does not own.
pub fn action_of(t: &str) -> (r: Option<TokenAction>)
    ensures
        r == spec_action_of(t@),
{
    if has_prefix(t, "darken-") {
        Some(TokenAction::Darken)
    } else if has_prefix(t, "delete-") {
        Some(TokenAction::Delete)
    } else if has_prefix(t, "clear-") {
        Some(TokenAction::Clear)
    } else if has_prefix(t, "stop-") {
        Some(TokenAction::Stop)
    } else {
        None
    }
}

/// The leading field of a control token for `a`.
pub open spec fn action_word(a: TokenAction) -> Seq<char> {
    match a {
        TokenAction::Darken => "darken"@,
        TokenAction::Delete => "delete"@,
        TokenAction::Clear => "clear"@,
        TokenAction::Stop => "stop"@,
    }
}

/// The two-field token of a plain control: its action and the subject id.
pub open spec fn spec_control_token(a: TokenAction, subject_id: u64) -> Seq<char> {
    action_word(a) + seq!['-'] + dec_seq_of(subject_id as int)
}

/// Encode a two-field control token, such as the dispose control that is
/// keyed by the original message.
pub fn control_token(a: TokenAction, subject_id: u64) -> (r: String)
    ensures
        r@ == spec_control_token(a, subject_id),
{
    let mut t = match a {
        TokenAction::Darken => String::from_str("darken"),
        TokenAction::Delete => String::from_str("delete"),
        TokenAction::Clear => String::from_str("clear"),
        TokenAction::Stop => String::from_str("stop"),
    };
    t.append("-");
    let ds = u64_to_dec(subject_id);
    t.append(ds.as_str());
    proof {
        reveal_strlit("-");
        assert("-"@ =~= seq!['-']);
        assert(t@ =~= spec_control_token(a, subject_id));
    }
    t
}

/// Law: a control token carries its subject id in the trailing field.
pub proof fn lemma_subject_id_of_control(a: TokenAction, subject_id: u64)
    requires
        1 <= subject_id,
    ensures
        spec_subject_id_of(spec_control_token(a, subject_id)) == Some(subject_id),
{
    let w = action_word(a);
    let dash = seq!['-'];
    let f = dec_seq_of(subject_id as int);
    let t = spec_control_token(a, subject_id);
    reveal_strlit("darken");
    reveal_strlit("delete");
    reveal_strlit("clear");
    reveal_strlit("stop");
    assert forall|i: int| 0 <= i < w.len() implies w[i] != '-' by {
        match a {
            TokenAction::Darken => {
                assert(w[0] == 'd'); assert(w[1] == 'a'); assert(w[2] == 'r');
                assert(w[3] == 'k'); assert(w[4] == 'e'); assert(w[5] == 'n');
            },
            TokenAction::Delete => {
                assert(w[0] == 'd'); assert(w[1] == 'e'); assert(w[2] == 'l');
                assert(w[3] == 'e'); assert(w[4] == 't'); assert(w[5] == 'e');
            },
            TokenAction::Clear => {
                assert(w[0] == 'c'); assert(w[1] == 'l'); assert(w[2] == 'e');
                assert(w[3] == 'a'); assert(w[4] == 'r');
            },
            TokenAction::Stop => {
                assert(w[0] == 's'); assert(w[1] == 't'); assert(w[2] == 'o');
                assert(w[3] == 'p');
            },
        }
    }
    lemma_delims_none(w);
    lemma_dec_round_trip(subject_id as int);
    assert forall|i: int| 0 <= i < f.len() implies f[i] != '-' by {
        assert(is_dec_digit(f[i]));
    }
    lemma_delims_none(f);
    let dash = seq!['-'];
    assert(dash.drop_last() =~= Seq::<char>::empty());
    assert(delims_of(dash) == delims_of(dash.drop_last()).push(dash.len() - 1));
    assert(delims_of(dash) =~= seq![0int]);
    lemma_delims_concat(w, dash);
    assert(delims_of(w + dash) =~= seq![w.len() as int]);
    lemma_delims_concat(w + dash, f);
    assert(delims_of(t) =~= seq![w.len() as int]);
    assert(t.subrange(w.len() as int + 1, t.len() as int) =~= f);
    assert(spec_parse_positive(f) == Some(subject_id));
}

/// The trailing field of a token as a subject id: everything after the
/// last delimiter (the whole token when it has none), parsed as a
/// positive integer.  This works for any field count, which is what lets
/// the option set grow.
pub open spec fn spec_subject_id_of(t: Seq<char>) -> Option<u64> {
    let d = delims_of(t);
    let lo = if d.len() == 0 {
        0
    } else {
        d[d.len() - 1] + 1
    };
    spec_parse_positive(t.subrange(lo, t.len() as int))
}

/// Extract the subject id from any token by taking the trailing field.
pub fn subject_id_of(t: &str) -> (r: Option<u64>)
    ensures
        r == spec_subject_id_of(t@),
{
    let n = t.unicode_len();
    let d = find_delims(t);
    proof {
        lemma_delims_bounds(t@);
    }
    let lo = if d.len() == 0 {
        0
    } else {
        d[d.len() - 1] + 1
    };
    parse_positive_range(t, lo, n)
}

} // verus!
