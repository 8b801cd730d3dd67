//! Parsing of received serial lines.
//!
//! A line (CR/LF already stripped) is one of: `ok` with optional feedback,
//! the `start` greeting, `echo:`/`debug:`/`Warning:`/`Error:` messages, a
//! resend request (`Resend: N`, `resend: N` or `rs N`, `N` up to nine
//! digits), a temperature report (`T:...`), a position report (`X:...`), or
//! unknown.  Reports are space-separated `key:value` pairs; keys are taken
//! verbatim, values are fixed-point decimals read as thousandths (fractions
//! beyond the third digit are dropped).

use vstd::prelude::*;
use crate::host::{find_char, lit_at};
use crate::message::{PositionsFeedback, Response, SerialFeedback};

verus! {

/// The numeric value of a digit, or `-1`.
pub open spec fn digit_of(c: char) -> int {
    if c == '0' {
        0
    } else if c == '1' {
        1
    } else if c == '2' {
        2
    } else if c == '3' {
        3
    } else if c == '4' {
        4
    } else if c == '5' {
        5
    } else if c == '6' {
        6
    } else if c == '7' {
        7
    } else if c == '8' {
        8
    } else if c == '9' {
        9
    } else {
        -1
    }
}

/// Every character is a digit.
pub open spec fn all_digits(s: Seq<char>) -> bool {
    forall|i: int| 0 <= i < s.len() ==> digit_of(#[trigger] s[i]) >= 0
}

/// The decimal value of a digit run.
pub open spec fn dec_val(s: Seq<char>) -> int
    decreases s.len(),
{
    if s.len() == 0 {
        0
    } else {
        dec_val(s.drop_last()) * 10 + digit_of(s.last())
    }
}

/// Ten to the `n`.
pub open spec fn pow10(n: nat) -> int
    decreases n,
{
    if n == 0 {
        1
    } else {
        10 * pow10((n - 1) as nat)
    }
}

/// A digit run's value is bounded by ten to its length.
pub proof fn lemma_dec_val_bounds(s: Seq<char>)
    requires
        all_digits(s),
    ensures
        0 <= dec_val(s) < pow10(s.len()),
    decreases s.len(),
{
    if s.len() > 0 {
        assert(all_digits(s.drop_last())) by {
            assert(forall|i: int| 0 <= i < s.len() - 1 ==> s.drop_last()[i] == s[i]);
        }
        lemma_dec_val_bounds(s.drop_last());
        assert(digit_of(s.last()) >= 0);
    }
}

/// The numeric value of one digit, for executable code.
fn digit_of_exec(c: char) -> (d: i64)
    ensures
        d == digit_of(c),
{
    if c == '0' {
        0
    } else if c == '1' {
        1
    } else if c == '2' {
        2
    } else if c == '3' {
        3
    } else if c == '4' {
        4
    } else if c == '5' {
        5
    } else if c == '6' {
        6
    } else if c == '7' {
        7
    } else if c == '8' {
        8
    } else if c == '9' {
        9
    } else {
        -1
    }
}

/// A digit run of bounded length, as a number: `None` when empty, too long,
/// or holding a non-digit.
pub open spec fn digits_val(s: Seq<char>, max_len: int) -> Option<int> {
    if 1 <= s.len() <= max_len && all_digits(s) {
        Some(dec_val(s))
    } else {
        None
    }
}

/// Reads the digit run `s[from..to]` (at most `max_len` digits).
fn parse_digits(s: &str, from: usize, to: usize, max_len: usize) -> (r: Option<i64>)
    requires
        from <= to <= s@.len(),
        max_len <= 12,
    ensures
        match r {
            Some(v) => digits_val(s@.subrange(from as int, to as int), max_len as int) == Some(
                v as int,
            ) && v >= 0,
            None => digits_val(s@.subrange(from as int, to as int), max_len as int) is None,
        },
{
    let ghost region = s@.subrange(from as int, to as int);
    let len = to - from;
    if len < 1 || len > max_len {
        return None;
    }
    let mut val: i64 = 0;
    let mut i: usize = 0;
    while i < len
        invariant
            i <= len,
            len == region.len(),
            from + len <= s@.len(),
            region == s@.subrange(from as int, to as int),
            to == from + len,
            len <= 12,
            all_digits(region.take(i as int)),
            val == dec_val(region.take(i as int)),
            0 <= val < pow10(i as nat),
        decreases len - i,
    {
        let d = digit_of_exec(s.get_char(from + i));
        if d < 0 {
            proof {
                assert(digit_of(region[i as int]) < 0);
            }
            return None;
        }
        proof {
            assert(region.take(i + 1).drop_last() =~= region.take(i as int));
            assert(region.take(i + 1).last() == region[i as int]);
            lemma_dec_val_bounds(region.take(i + 1));
            assert(pow10(12) == 1000000000000) by {
                reveal_with_fuel(pow10, 13);
            }
            assert(pow10((i + 1) as nat) <= pow10(12)) by {
                lemma_pow10_mono((i + 1) as nat, 12);
            }
        }
        val = val * 10 + d;
        i = i + 1;
    }
    proof {
        assert(region.take(len as int) =~= region);
    }
    Some(val)
}

proof fn lemma_pow10_mono(a: nat, b: nat)
    requires
        a <= b,
    ensures
        pow10(a) <= pow10(b),
        pow10(a) >= 1,
    decreases b,
{
    if a < b {
        lemma_pow10_mono(a, (b - 1) as nat);
    } else if b > 0 {
        lemma_pow10_mono((a - 1) as nat, (b - 1) as nat);
    }
}

/// The value of a fixed-point decimal (optional `-`, digits, optional `.`
/// and fraction), in thousandths; fraction digits past the third are
/// dropped.
pub open spec fn fixed_val(s: Seq<char>) -> Option<int> {
    if s.len() == 0 {
        None
    } else {
        let neg = s[0] == '-';
        let body = if neg {
            s.skip(1)
        } else {
            s
        };
        let d = find_char(body, 0, '.');
        let int_part = if d < 0 {
            body
        } else {
            body.take(d)
        };
        let frac = if d < 0 {
            Seq::<char>::empty()
        } else {
            body.skip(d + 1)
        };
        if !(1 <= int_part.len() <= 12 && all_digits(int_part)) {
            None
        } else if d >= 0 && !(1 <= frac.len() <= 9 && all_digits(frac)) {
            None
        } else {
            let frac3 = if frac.len() >= 3 {
                dec_val(frac.take(3))
            } else if frac.len() == 2 {
                dec_val(frac) * 10
            } else if frac.len() == 1 {
                dec_val(frac) * 100
            } else {
                0
            };
            let mag = dec_val(int_part) * 1000 + frac3;
            Some(
                if neg {
                    -mag
                } else {
                    mag
                },
            )
        }
    }
}

/// Reads the fixed-point decimal in `s[from..to]` as thousandths.
#[verifier::rlimit(100)]
#[verifier::spinoff_prover]
fn parse_fixed(s: &str, from: usize, to: usize) -> (r: Option<i64>)
    requires
        from <= to <= s@.len(),
    ensures
        match r {
            Some(v) => fixed_val(s@.subrange(from as int, to as int)) == Some(v as int),
            None => fixed_val(s@.subrange(from as int, to as int)) is None,
        },
{
    let ghost region = s@.subrange(from as int, to as int);
    if from == to {
        return None;
    }
    let neg = s.get_char(from) == '-';
    let body_from = if neg {
        from + 1
    } else {
        from
    };
    proof {
        if neg {
            assert(region.skip(1) =~= s@.subrange(body_from as int, to as int));
        } else {
            assert(region =~= s@.subrange(body_from as int, to as int));
        }
    }
    let ghost body = s@.subrange(body_from as int, to as int);
    let dot = find_char_in(s, body_from, to, '.');
    let (int_to, frac_from) = match dot {
        Some(d) => (d, d + 1),
        None => (to, to),
    };
    proof {
        match dot {
            Some(d) => {
                assert(find_char(body, 0, '.') == d - body_from) by {
                    lemma_find_char_offset(s@, body_from as int, to as int, '.');
                }
                assert(body.take(d - body_from) =~= s@.subrange(body_from as int, d as int));
                assert(body.skip(d - body_from + 1) =~= s@.subrange(d + 1, to as int));
            },
            None => {
                assert(find_char(body, 0, '.') == -1) by {
                    lemma_find_char_offset(s@, body_from as int, to as int, '.');
                }
            },
        }
    }
    let int_val = match parse_digits(s, body_from, int_to, 12) {
        Some(v) => v,
        None => {
            return None;
        },
    };
    let mut frac3: i64 = 0;
    {
        if dot.is_some() {
            let flen = to - frac_from;
            if flen < 1 || flen > 9 {
                proof {
                    let frac = s@.subrange(frac_from as int, to as int);
                    assert(!(1 <= frac.len() <= 9));
                }
                return None;
            }
            let fval = match parse_digits(s, frac_from, to, 9) {
                Some(v) => v,
                None => {
                    return None;
                },
            };
            proof {
                let frac = s@.subrange(frac_from as int, to as int);
                lemma_dec_val_bounds(frac);
                lemma_pow10_mono(frac.len() as nat, 9);
                reveal_with_fuel(pow10, 13);
            }
            if flen >= 3 {
                let f3 = match parse_digits(s, frac_from, frac_from + 3, 3) {
                    Some(v) => v,
                    None => {
                        proof {
                            let frac = s@.subrange(frac_from as int, to as int);
                            assert(all_digits(frac));
                            let f3s = s@.subrange(frac_from as int, frac_from + 3int);
                            assert(forall|i: int| 0 <= i < 3 ==> f3s[i] == frac[i]);
                            assert(all_digits(f3s));
                        }
                        return None;
                    },
                };
                frac3 = f3;
                proof {
                    let frac = s@.subrange(frac_from as int, to as int);
                    assert(frac.take(3) =~= s@.subrange(frac_from as int, frac_from + 3int));
                }
            } else if flen == 2 {
                frac3 = fval * 10;
            } else {
                frac3 = fval * 100;
            }
        }
    }
    proof {
        lemma_dec_val_bounds(s@.subrange(body_from as int, int_to as int));
        assert(pow10(12) == 1000000000000) by {
            reveal_with_fuel(pow10, 13);
        }
        lemma_pow10_mono(s@.subrange(body_from as int, int_to as int).len() as nat, 12);
        if dot is Some {
            lemma_dec_val_bounds(s@.subrange(frac_from as int, to as int));
            lemma_pow10_mono(s@.subrange(frac_from as int, to as int).len() as nat, 9);
            assert(pow10(9) == 1000000000) by {
                reveal_with_fuel(pow10, 13);
            }
            if to - frac_from >= 3 {
                lemma_dec_val_bounds(s@.subrange(frac_from as int, frac_from + 3int));
                lemma_pow10_mono(3, 9);
                assert(pow10(3) == 1000) by {
                    reveal_with_fuel(pow10, 13);
                }
            }
        }
    }
    let mag = int_val * 1000 + frac3;
    let v = if neg {
        -mag
    } else {
        mag
    };
    Some(v)
}

proof fn lemma_find_char_offset(s: Seq<char>, from: int, to: int, c: char)
    requires
        0 <= from <= to <= s.len(),
    ensures
        ({
            let body = s.subrange(from, to);
            let j = crate::response::find_char_bounded(s, from, to, c);
            &&& (j == -1 ==> find_char(body, 0, c) == -1)
            &&& (j >= 0 ==> find_char(body, 0, c) == j - from)
        }),
{
    lemma_find_char_offset_aux(s, from, from, to, c);
}

/// Finds the first `c` in `s[from..to]`.
fn find_char_in(s: &str, from: usize, to: usize, c: char) -> (r: Option<usize>)
    requires
        from <= to <= s@.len(),
    ensures
        match r {
            Some(j) => find_char_bounded(s@, from as int, to as int, c) == j && from <= j < to,
            None => find_char_bounded(s@, from as int, to as int, c) == -1,
        },
{
    let mut i: usize = from;
    while i < to
        invariant
            from <= i <= to,
            to <= s@.len(),
            forall|j: int| from <= j < i ==> s@[j] != c,
        decreases to - i,
    {
        if s.get_char(i) == c {
            proof {
                lemma_find_char_bounded_skip(s@, from as int, i as int, to as int, c);
            }
            return Some(i);
        }
        i = i + 1;
    }
    proof {
        lemma_find_char_bounded_skip(s@, from as int, to as int, to as int, c);
    }
    None
}

proof fn lemma_find_char_bounded_skip(s: Seq<char>, from: int, i: int, to: int, c: char)
    requires
        0 <= from <= i <= to <= s.len(),
        forall|j: int| from <= j < i ==> s[j] != c,
    ensures
        find_char_bounded(s, from, to, c) == find_char_bounded(s, i, to, c),
    decreases i - from,
{
    if from < i {
        lemma_find_char_bounded_skip(s, from + 1, i, to, c);
    }
}

/// The first position in `from..to` holding `c`, or `-1`.
pub open spec fn find_char_bounded(s: Seq<char>, i: int, to: int, c: char) -> int
    decreases to - i,
    when 0 <= i && to <= s.len()
{
    if i >= to {
        -1
    } else if s[i] == c {
        i
    } else {
        find_char_bounded(s, i + 1, to, c)
    }
}

proof fn lemma_find_char_offset_aux(s: Seq<char>, from: int, i: int, to: int, c: char)
    requires
        0 <= from <= i <= to <= s.len(),
    ensures
        ({
            let body = s.subrange(from, to);
            let j = find_char_bounded(s, i, to, c);
            &&& (j == -1 ==> find_char(body, i - from, c) == -1)
            &&& (j >= 0 ==> find_char(body, i - from, c) == j - from)
        }),
    decreases to - i,
{
    let body = s.subrange(from, to);
    if i < to {
        if s[i] != c {
            lemma_find_char_offset_aux(s, from, i + 1, to, c);
        }
    }
}

/// The view of one parsed pair.
pub open spec fn pair_views(ps: Seq<(String, i64)>) -> Seq<(Seq<char>, int)> {
    ps.map_values(|p: (String, i64)| (p.0@, p.1 as int))
}

/// One `key:value` pair read from a token: the key is everything before the
/// first `:` (non-empty, taken verbatim), the value a fixed-point decimal.
pub open spec fn pair_of(tok: Seq<char>) -> Option<(Seq<char>, int)> {
    let k = find_char(tok, 0, ':');
    if k <= 0 {
        None
    } else {
        match fixed_val(tok.skip(k + 1)) {
            Some(v) => Some((tok.take(k), v)),
            None => None,
        }
    }
}

/// The pairs of a report from position `i` on: tokens are split at spaces,
/// and tokens that are not `key:value` pairs are skipped.
pub open spec fn pairs_from(s: Seq<char>, i: int) -> Seq<(Seq<char>, int)>
    decreases s.len() - i,
    when 0 <= i
{
    if i >= s.len() {
        Seq::empty()
    } else {
        let j = find_char(s, i, ' ');
        let end = if j < i || j >= s.len() {
            s.len() as int
        } else {
            j
        };
        let nxt = if j < i || j >= s.len() {
            s.len() as int
        } else {
            j + 1
        };
        let rest = pairs_from(s, nxt);
        match pair_of(s.subrange(i, end)) {
            Some(p) => seq![p] + rest,
            None => rest,
        }
    }
}

proof fn lemma_find_char_props(s: Seq<char>, i: int, c: char)
    requires
        0 <= i,
    ensures
        find_char(s, i, c) == -1 || (i <= find_char(s, i, c) < s.len() && s[find_char(s, i, c)]
            == c),
    decreases s.len() - i,
{
    if i < s.len() && s[i] != c {
        lemma_find_char_props(s, i + 1, c);
    }
}

/// Reads the pairs of a report from position `from` on.
fn parse_pairs_exec(s: &str, from: usize) -> (pairs: Vec<(String, i64)>)
    requires
        from <= s@.len(),
    ensures
        pair_views(pairs@) == pairs_from(s@, from as int),
    decreases s@.len() - from,
{
    let len = s.unicode_len();
    if from >= len {
        let pairs: Vec<(String, i64)> = Vec::new();
        proof {
            assert(pair_views(pairs@) =~= pairs_from(s@, from as int));
        }
        return pairs;
    }
    let (end, nxt) = match crate::host::find_char_exec(s, from, ' ') {
        Some(j) => (j, j + 1),
        None => (len, len),
    };
    let mut rest = parse_pairs_exec(s, nxt);
    let ghost tok = s@.subrange(from as int, end as int);
    let colon = match find_char_in(s, from, end, ':') {
        Some(c) => c,
        None => {
            proof {
                lemma_find_char_offset(s@, from as int, end as int, ':');
                assert(pair_of(tok) is None);
                assert(pair_views(rest@) =~= pairs_from(s@, from as int));
            }
            return rest;
        },
    };
    proof {
        lemma_find_char_offset(s@, from as int, end as int, ':');
        assert(find_char(tok, 0, ':') == colon - from);
    }
    if colon == from {
        proof {
            assert(pair_of(tok) is None);
            assert(pair_views(rest@) =~= pairs_from(s@, from as int));
        }
        return rest;
    }
    let value = match parse_fixed(s, colon + 1, end) {
        Some(v) => v,
        None => {
            proof {
                assert(tok.skip(colon - from + 1) =~= s@.subrange(colon + 1, end as int));
                assert(pair_of(tok) is None);
                assert(pair_views(rest@) =~= pairs_from(s@, from as int));
            }
            return rest;
        },
    };
    let key = s.substring_char(from, colon).to_owned();
    let mut pairs: Vec<(String, i64)> = Vec::new();
    pairs.push((key, value));
    pairs.append(&mut rest);
    proof {
        assert(tok.skip(colon - from + 1) =~= s@.subrange(colon + 1, end as int));
        assert(tok.take(colon - from) =~= s@.subrange(from as int, colon as int));
        assert(pair_of(tok) == Some((key@, value as int)));
        assert(pair_views(pairs@) =~= pairs_from(s@, from as int));
    }
    pairs
}

/// The spec-level view of the feedback a response carries.
pub enum FeedbackV {
    Temps(Seq<(Seq<char>, int)>),
    Positions(Seq<(Seq<char>, int)>, Option<Seq<(Seq<char>, int)>>),
}

/// The spec-level view of a parsed response.
pub enum ResponseV {
    Unknown,
    Echo(Seq<char>),
    Debug(Seq<char>),
    Warning(Seq<char>),
    Error(Seq<char>),
    Greeting,
    Okay(Option<FeedbackV>),
    FeedbackOnly(FeedbackV),
    Resend(u32),
}

/// The view of a parsed serial feedback value.
pub open spec fn feedback_view(fb: SerialFeedback) -> FeedbackV {
    match fb {
        SerialFeedback::ActualTemperatures(v) => FeedbackV::Temps(pair_views(v@)),
        SerialFeedback::Positions(p) => FeedbackV::Positions(
            pair_views(p.actual_positions@),
            match p.target_positions {
                Some(ts) => Some(pair_views(ts@)),
                None => None,
            },
        ),
    }
}

/// The view of a parsed response.
pub open spec fn response_view(r: Response) -> ResponseV {
    match r {
        Response::Unknown => ResponseV::Unknown,
        Response::Echo(m) => ResponseV::Echo(m@),
        Response::Debug(m) => ResponseV::Debug(m@),
        Response::Warning(m) => ResponseV::Warning(m@),
        Response::Error(m) => ResponseV::Error(m@),
        Response::Greeting => ResponseV::Greeting,
        Response::Okay(fb) => ResponseV::Okay(
            match fb {
                Some(f) => Some(feedback_view(f)),
                None => None,
            },
        ),
        Response::Feedback(f) => ResponseV::FeedbackOnly(feedback_view(f)),
        Response::Resend { line_number } => ResponseV::Resend(line_number),
    }
}

/// The feedback written in a report: a temperature report starts `T:`, a
/// position report `X:`; targets never come off the wire.
pub open spec fn feedback_of(s: Seq<char>) -> Option<FeedbackV> {
    if lit_at(s, 0, "T:"@) {
        Some(FeedbackV::Temps(pairs_from(s, 0)))
    } else if lit_at(s, 0, "X:"@) {
        Some(FeedbackV::Positions(pairs_from(s, 0), None))
    } else {
        None
    }
}

/// The first position `>= i` that is not a space.
pub open spec fn skip_spaces_from(s: Seq<char>, i: int) -> int
    decreases s.len() - i,
    when 0 <= i
{
    if i >= s.len() {
        s.len() as int
    } else if s[i] == ' ' {
        skip_spaces_from(s, i + 1)
    } else {
        i
    }
}

proof fn lemma_skip_spaces_skip(s: Seq<char>, from: int, i: int)
    requires
        0 <= from <= i <= s.len(),
        forall|j: int| from <= j < i ==> s[j] == ' ',
    ensures
        skip_spaces_from(s, from) == skip_spaces_from(s, i),
    decreases i - from,
{
    if from < i {
        lemma_skip_spaces_skip(s, from + 1, i);
    }
}

/// The resend line number written after a resend prefix: optional spaces,
/// then up to nine digits running to the end of the line.
pub open spec fn resend_num(s: Seq<char>, i: int) -> Option<u32> {
    if 0 <= i <= s.len() {
        let j = skip_spaces_from(s, i);
        match digits_val(s.subrange(j, s.len() as int), 9) {
            Some(v) => Some(v as u32),
            None => None,
        }
    } else {
        None
    }
}

/// What a received line parses to.
pub open spec fn spec_parse_response(s: Seq<char>) -> ResponseV {
    if s == "ok"@ {
        ResponseV::Okay(None)
    } else if lit_at(s, 0, "ok "@) {
        ResponseV::Okay(feedback_of(s.skip(3)))
    } else if s == "start"@ {
        ResponseV::Greeting
    } else if lit_at(s, 0, "echo:"@) {
        ResponseV::Echo(s.skip(5))
    } else if lit_at(s, 0, "debug:"@) {
        ResponseV::Debug(s.skip(6))
    } else if lit_at(s, 0, "Warning:"@) {
        ResponseV::Warning(s.skip(8))
    } else if lit_at(s, 0, "warning:"@) {
        ResponseV::Warning(s.skip(8))
    } else if lit_at(s, 0, "Error:"@) {
        ResponseV::Error(s.skip(6))
    } else if lit_at(s, 0, "error:"@) {
        ResponseV::Error(s.skip(6))
    } else if lit_at(s, 0, "Resend:"@) {
        match resend_num(s, 7) {
            Some(n) => ResponseV::Resend(n),
            None => ResponseV::Unknown,
        }
    } else if lit_at(s, 0, "resend:"@) {
        match resend_num(s, 7) {
            Some(n) => ResponseV::Resend(n),
            None => ResponseV::Unknown,
        }
    } else if lit_at(s, 0, "rs "@) {
        match resend_num(s, 3) {
            Some(n) => ResponseV::Resend(n),
            None => ResponseV::Unknown,
        }
    } else {
        match feedback_of(s) {
            Some(fb) => ResponseV::FeedbackOnly(fb),
            None => ResponseV::Unknown,
        }
    }
}

/// Parses the feedback of a report region starting at `from`.
fn parse_feedback_exec(s: &str, from: usize) -> (r: Option<SerialFeedback>)
    requires
        from <= s@.len(),
    ensures
        match r {
            Some(fb) => feedback_of(s@.skip(from as int)) == Some(feedback_view(fb)),
            None => feedback_of(s@.skip(from as int)) is None,
        },
{
    proof {
        reveal_strlit("T:");
        reveal_strlit("X:");
    }
    let ghost region = s@.skip(from as int);
    let is_t = crate::host::lit_at_exec(s, from, "T:");
    let is_x = if is_t {
        false
    } else {
        crate::host::lit_at_exec(s, from, "X:")
    };
    proof {
        if from + 2 <= s@.len() {
            assert(region.subrange(0, 2) =~= s@.subrange(from as int, from + 2));
        }
        assert(lit_at(region, 0, "T:"@) == is_t);
        assert((is_t == false) ==> lit_at(region, 0, "X:"@) == is_x);
    }
    if is_t {
        let pairs = parse_pairs_exec(s, from);
        proof {
            lemma_pairs_offset(s@, from as int);
        }
        Some(SerialFeedback::ActualTemperatures(pairs))
    } else if is_x {
        let pairs = parse_pairs_exec(s, from);
        proof {
            lemma_pairs_offset(s@, from as int);
        }
        Some(
            SerialFeedback::Positions(
                PositionsFeedback { actual_positions: pairs, target_positions: None },
            ),
        )
    } else {
        None
    }
}

/// Pair scanning commutes with dropping a prefix.
proof fn lemma_pairs_offset(s: Seq<char>, from: int)
    requires
        0 <= from <= s.len(),
    ensures
        pairs_from(s.skip(from), 0) == pairs_from(s, from),
{
    lemma_pairs_offset_aux(s, from, from);
}

proof fn lemma_pairs_offset_aux(s: Seq<char>, base: int, i: int)
    requires
        0 <= base <= i <= s.len(),
    ensures
        pairs_from(s.skip(base), i - base) == pairs_from(s, i),
    decreases s.len() - i,
{
    let body = s.skip(base);
    if i >= s.len() {
    } else {
        let j_body = find_char(body, i - base, ' ');
        let j = find_char(s, i, ' ');
        lemma_find_offset_generic(s, base, i, ' ');
        lemma_find_char_props(s, i, ' ');
        lemma_find_char_props(body, i - base, ' ');
        let end = if j < i || j >= s.len() {
            s.len() as int
        } else {
            j
        };
        let nxt = if j < i || j >= s.len() {
            s.len() as int
        } else {
            j + 1
        };
        assert(body.subrange(i - base, end - base) =~= s.subrange(i, end));
        lemma_pairs_offset_aux(s, base, nxt);
    }
}

/// `find_char` on a suffix, related position by position.
proof fn lemma_find_offset_generic(s: Seq<char>, base: int, i: int, c: char)
    requires
        0 <= base <= i <= s.len(),
    ensures
        ({
            let j = find_char(s, i, c);
            let jb = find_char(s.skip(base), i - base, c);
            &&& (j < 0 ==> jb < 0)
            &&& (j >= 0 ==> jb == j - base)
        }),
    decreases s.len() - i,
{
    if i < s.len() {
        if s[i] != c {
            lemma_find_offset_generic(s, base, i + 1, c);
        }
    }
}

/// Parses one received serial line.
pub fn parse_response(s: &str) -> (r: Response)
    ensures
        response_view(r) == spec_parse_response(s@),
{
    proof {
        reveal_strlit("ok");
        reveal_strlit("ok ");
        reveal_strlit("start");
        reveal_strlit("echo:");
        reveal_strlit("debug:");
        reveal_strlit("Warning:");
        reveal_strlit("warning:");
        reveal_strlit("Error:");
        reveal_strlit("error:");
        reveal_strlit("Resend:");
        reveal_strlit("resend:");
        reveal_strlit("rs ");
    }
    let len = s.unicode_len();
    if len == 2 && crate::host::lit_at_exec(s, 0, "ok") {
        proof {
            assert(s@ =~= s@.subrange(0, 0 + "ok"@.len() as int));
        }
        return Response::Okay(None);
    }
    proof {
        if s@ == "ok"@ {
            assert(s@.len() == 2);
            assert(s@.subrange(0, 0 + "ok"@.len() as int) =~= s@);
        }
        assert(s@ != "ok"@);
    }
    if crate::host::lit_at_exec(s, 0, "ok ") {
        let fb = parse_feedback_exec(s, 3);
        return Response::Okay(fb);
    }
    if len == 5 && crate::host::lit_at_exec(s, 0, "start") {
        proof {
            assert(s@ =~= s@.subrange(0, 0 + "start"@.len() as int));
        }
        return Response::Greeting;
    }
    proof {
        if s@ == "start"@ {
            assert(s@.len() == 5);
            assert(s@.subrange(0, 0 + "start"@.len() as int) =~= s@);
        }
        assert(s@ != "start"@);
    }
    if crate::host::lit_at_exec(s, 0, "echo:") {
        let m = s.substring_char(5, len).to_owned();
        proof {
            assert(m@ =~= s@.skip(5));
        }
        return Response::Echo(m);
    }
    if crate::host::lit_at_exec(s, 0, "debug:") {
        let m = s.substring_char(6, len).to_owned();
        proof {
            assert(m@ =~= s@.skip(6));
        }
        return Response::Debug(m);
    }
    if crate::host::lit_at_exec(s, 0, "Warning:") {
        let m = s.substring_char(8, len).to_owned();
        proof {
            assert(m@ =~= s@.skip(8));
        }
        return Response::Warning(m);
    }
    if crate::host::lit_at_exec(s, 0, "warning:") {
        let m = s.substring_char(8, len).to_owned();
        proof {
            assert(m@ =~= s@.skip(8));
        }
        return Response::Warning(m);
    }
    if crate::host::lit_at_exec(s, 0, "Error:") {
        let m = s.substring_char(6, len).to_owned();
        proof {
            assert(m@ =~= s@.skip(6));
        }
        return Response::Error(m);
    }
    if crate::host::lit_at_exec(s, 0, "error:") {
        let m = s.substring_char(6, len).to_owned();
        proof {
            assert(m@ =~= s@.skip(6));
        }
        return Response::Error(m);
    }
    let resend_at = if crate::host::lit_at_exec(s, 0, "Resend:") {
        Some(7usize)
    } else if crate::host::lit_at_exec(s, 0, "resend:") {
        Some(7usize)
    } else if crate::host::lit_at_exec(s, 0, "rs ") {
        Some(3usize)
    } else {
        None
    };
    match resend_at {
        Some(at) => {
            let mut j: usize = at;
            while j < len && s.get_char(j) == ' '
                invariant
                    at <= j <= len,
                    len == s@.len(),
                    forall|x: int| at <= x < j ==> s@[x] == ' ',
                decreases len - j,
            {
                j = j + 1;
            }
            proof {
                lemma_skip_spaces_skip(s@, at as int, j as int);
                assert(skip_spaces_from(s@, at as int) == j);
            }
            match parse_digits(s, j, len, 9) {
                Some(v) => {
                    proof {
                        lemma_dec_val_bounds(s@.subrange(j as int, len as int));
                        lemma_pow10_mono(s@.subrange(j as int, len as int).len() as nat, 9);
                        assert(pow10(9) == 1000000000) by {
                            reveal_with_fuel(pow10, 13);
                        }
                    }
                    Response::Resend { line_number: v as u32 }
                },
                None => Response::Unknown,
            }
        },
        None => {
            match parse_feedback_exec(s, 0) {
                Some(fb) => {
                    proof {
                        assert(s@.skip(0) =~= s@);
                    }
                    Response::Feedback(fb)
                },
                None => {
                    proof {
                        assert(s@.skip(0) =~= s@);
                    }
                    Response::Unknown
                },
            }
        },
    }
}

} // verus!
