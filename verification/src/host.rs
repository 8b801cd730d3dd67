//! Host GCode: in-band directives on lines that begin with `!`.
//!
//! The text after the `!` is one of two canonical directives (no extra
//! whitespace):
//!
//! - `{"markTargetPosition":{}}`
//! - `{"waitToReachMark":{"axes":{"<addr>":{"forward":<bool>},...}}}`
//!
//! Anything else is malformed and fails the task with an error.

use vstd::prelude::*;

verus! {

/// A parsed host directive.
#[derive(Clone, Debug)]
pub enum HostDirective {
    MarkTargetPosition,
    /// The axes to wait on: `(address, forward)` in written order.
    WaitToReachMark { axes: Vec<(String, bool)> },
}

/// The spec-level form of a parsed directive.
pub enum HostDirectiveSpec {
    Mark,
    Wait(Seq<(Seq<char>, bool)>),
}

/// The view of a parsed directive.
pub open spec fn directive_view(d: HostDirective) -> HostDirectiveSpec {
    match d {
        HostDirective::MarkTargetPosition => HostDirectiveSpec::Mark,
        HostDirective::WaitToReachMark { axes } => HostDirectiveSpec::Wait(
            axes@.map_values(|p: (String, bool)| (p.0@, p.1)),
        ),
    }
}

/// True when `lit` occurs in `s` at position `i`.
pub open spec fn lit_at(s: Seq<char>, i: int, lit: Seq<char>) -> bool {
    0 <= i && i + lit.len() <= s.len() && s.subrange(i, i + lit.len()) == lit
}

/// The first position `>= i` holding `c`, or `-1`.
pub open spec fn find_char(s: Seq<char>, i: int, c: char) -> int
    decreases s.len() - i,
    when 0 <= i
{
    if i >= s.len() {
        -1
    } else if s[i] == c {
        i
    } else {
        find_char(s, i + 1, c)
    }
}

proof fn lemma_find_char_skip(s: Seq<char>, from: int, i: int, c: char)
    requires
        0 <= from <= i <= s.len(),
        forall|j: int| from <= j < i ==> s[j] != c,
    ensures
        find_char(s, from, c) == find_char(s, i, c),
    decreases i - from,
{
    if from < i {
        lemma_find_char_skip(s, from + 1, i, c);
    }
}

/// Finds the first `c` at a position in `from..s.len()`, or returns `-1` as
/// `None`.
pub(crate) fn find_char_exec(s: &str, from: usize, c: char) -> (r: Option<usize>)
    requires
        from <= s@.len(),
    ensures
        match r {
            Some(j) => find_char(s@, from as int, c) == j && from <= j < s@.len(),
            None => find_char(s@, from as int, c) == -1,
        },
{
    let len = s.unicode_len();
    let mut i: usize = from;
    while i < len
        invariant
            from <= i <= len,
            len == s@.len(),
            forall|j: int| from <= j < i ==> s@[j] != c,
        decreases len - i,
    {
        if s.get_char(i) == c {
            proof {
                lemma_find_char_skip(s@, from as int, i as int, c);
            }
            return Some(i);
        }
        i = i + 1;
    }
    proof {
        lemma_find_char_skip(s@, from as int, len as int, c);
    }
    None
}

/// Decides `lit_at(s@, i, lit@)`.
pub(crate) fn lit_at_exec(s: &str, i: usize, lit: &str) -> (r: bool)
    ensures
        r == lit_at(s@, i as int, lit@),
{
    let s_len = s.unicode_len();
    let lit_len = lit.unicode_len();
    if i > s_len || lit_len > s_len - i {
        return false;
    }
    let mut k: usize = 0;
    while k < lit_len
        invariant
            k <= lit_len,
            lit_len == lit@.len(),
            s_len == s@.len(),
            i + lit_len <= s_len,
            forall|j: int| 0 <= j < k ==> s@[i + j] == lit@[j],
        decreases lit_len - k,
    {
        if s.get_char(i + k) != lit.get_char(k) {
            proof {
                assert(s@.subrange(i as int, i + lit@.len())[k as int] != lit@[k as int]);
            }
            return false;
        }
        k = k + 1;
    }
    proof {
        assert(s@.subrange(i as int, i + lit@.len()) =~= lit@);
    }
    true
}

/// One axis entry `"<addr>":{"forward":<bool>}` read at position `i` (which
/// must stop before `end`): the entry and the position just after it.
pub open spec fn entry_at(s: Seq<char>, i: int, end: int) -> Option<((Seq<char>, bool), int)> {
    if !(0 <= i < end && end <= s.len() && s[i] == '"') {
        None
    } else {
        let j = find_char(s, i + 1, '"');
        if !(0 <= j && j + 13 <= end) {
            None
        } else {
            let key = s.subrange(i + 1, j);
            if s.subrange(j + 1, j + 13) != ":{\"forward\":"@ {
                None
            } else {
                let m = j + 13;
                if lit_at(s, m, "true"@) && m + 5 <= end && s[m + 4] == '}' {
                    Some(((key, true), m + 5))
                } else if lit_at(s, m, "false"@) && m + 6 <= end && s[m + 5] == '}' {
                    Some(((key, false), m + 6))
                } else {
                    None
                }
            }
        }
    }
}

/// A non-empty `,`-separated run of axis entries filling `i..end` exactly.
pub open spec fn entries_from(s: Seq<char>, i: int, end: int) -> Option<Seq<(Seq<char>, bool)>>
    decreases end - i,
    when 0 <= i
{
    match entry_at(s, i, end) {
        None => None,
        Some((e, n)) => {
            if n == end {
                Some(seq![e])
            } else if i < n && n < end && s[n] == ',' {
                match entries_from(s, n + 1, end) {
                    None => None,
                    Some(rest) => Some(seq![e] + rest),
                }
            } else {
                None
            }
        },
    }
}

/// Reads one axis entry at `i`, returning it with the position after it.
fn entry_at_exec(s: &str, i: usize, end: usize) -> (r: Option<((String, bool), usize)>)
    requires
        end <= s@.len(),
    ensures
        match r {
            Some(((key, fwd), n)) => entry_at(s@, i as int, end as int) == Some(
                ((key@, fwd), n as int),
            ) && i < n <= end,
            None => entry_at(s@, i as int, end as int) is None,
        },
{
    proof {
        reveal_strlit(":{\"forward\":");
        reveal_strlit("true");
        reveal_strlit("false");
    }
    if !(i < end && s.get_char(i) == '"') {
        return None;
    }
    let j = match find_char_exec(s, i + 1, '"') {
        Some(j) => j,
        None => {
            return None;
        },
    };
    if !(j < end && end - j >= 13) {
        return None;
    }
    if !lit_at_exec(s, j + 1, ":{\"forward\":") {
        proof {
            assert(s@.subrange(j + 1, j + 13int) != ":{\"forward\":"@);
        }
        return None;
    }
    proof {
        assert(s@.subrange(j + 1, j + 13int) == ":{\"forward\":"@);
    }
    let key = s.substring_char(i + 1, j).to_owned();
    let m = j + 13;
    if lit_at_exec(s, m, "true") {
        if end - m >= 5 && s.get_char(m + 4) == '}' {
            return Some(((key, true), m + 5));
        }
        proof {
            assert(s@.subrange(m as int, m + 4int)[0] == s@[m as int]);
            if lit_at(s@, m as int, "false"@) {
                assert(s@.subrange(m as int, m + 5int)[0] == s@[m as int]);
            }
        }
        return None;
    }
    if lit_at_exec(s, m, "false") {
        if end - m >= 6 && s.get_char(m + 5) == '}' {
            return Some(((key, false), m + 6));
        }
        return None;
    }
    None
}

/// Reads the whole entry run `i..end`.
fn entries_from_exec(s: &str, i: usize, end: usize) -> (r: Option<Vec<(String, bool)>>)
    requires
        end <= s@.len(),
    ensures
        match r {
            Some(axes) => entries_from(s@, i as int, end as int) == Some(
                axes@.map_values(|p: (String, bool)| (p.0@, p.1)),
            ),
            None => entries_from(s@, i as int, end as int) is None,
        },
    decreases end - i,
{
    let (entry, n) = match entry_at_exec(s, i, end) {
        Some(r) => r,
        None => {
            return None;
        },
    };
    if n == end {
        let mut axes: Vec<(String, bool)> = Vec::new();
        axes.push(entry);
        proof {
            assert(axes@.map_values(|p: (String, bool)| (p.0@, p.1)) =~= seq![
                (entry.0@, entry.1),
            ]);
        }
        return Some(axes);
    }
    if n < end && s.get_char(n) == ',' {
        match entries_from_exec(s, n + 1, end) {
            Some(rest) => {
                let mut axes: Vec<(String, bool)> = Vec::new();
                axes.push(entry);
                let mut rest = rest;
                axes.append(&mut rest);
                proof {
                    assert(axes@.map_values(|p: (String, bool)| (p.0@, p.1)) =~= seq![
                        (entry.0@, entry.1),
                    ] + entries_from(s@, n + 1, end as int).unwrap());
                }
                return Some(axes);
            },
            None => {
                return None;
            },
        }
    }
    None
}

/// The canonical mark directive.
pub open spec fn mark_lit() -> Seq<char> {
    "{\"markTargetPosition\":{}}"@
}

/// What precedes the axis entries of a wait directive.
pub open spec fn wait_prefix() -> Seq<char> {
    "{\"waitToReachMark\":{\"axes\":{"@
}

/// What follows the axis entries of a wait directive.
pub open spec fn wait_suffix() -> Seq<char> {
    "}}}"@
}

/// The directive written in `s` (the text after the leading `!`), if any.
/// Only the canonical spellings above are accepted: no extra whitespace and
/// no re-ordered keys; any other spelling is malformed and fails the task.
pub open spec fn parse_host(s: Seq<char>) -> Option<HostDirectiveSpec> {
    if s == mark_lit() {
        Some(HostDirectiveSpec::Mark)
    } else if lit_at(s, 0, wait_prefix()) && s.len() >= wait_prefix().len() + wait_suffix().len()
        && s.subrange(s.len() - 3, s.len() as int) == wait_suffix() {
        let start = wait_prefix().len() as int;
        let end = s.len() - 3;
        if start == end {
            Some(HostDirectiveSpec::Wait(Seq::empty()))
        } else {
            match entries_from(s, start, end) {
                None => None,
                Some(axes) => Some(HostDirectiveSpec::Wait(axes)),
            }
        }
    } else {
        None
    }
}

/// Parses the text after the leading `!` of a host GCode line.
pub fn parse_host_directive(s: &str) -> (r: Option<HostDirective>)
    ensures
        match r {
            Some(d) => parse_host(s@) == Some(directive_view(d)),
            None => parse_host(s@) is None,
        },
{
    proof {
        reveal_strlit("{\"markTargetPosition\":{}}");
        reveal_strlit("{\"waitToReachMark\":{\"axes\":{");
        reveal_strlit("}}}");
    }
    let len = s.unicode_len();
    if len == 25 && lit_at_exec(s, 0, "{\"markTargetPosition\":{}}") {
        proof {
            assert(s@ =~= s@.subrange(0, 0 + mark_lit().len() as int));
        }
        return Some(HostDirective::MarkTargetPosition);
    }
    proof {
        if s@ == mark_lit() {
            assert(s@.len() == 25);
            assert(s@.subrange(0, 0 + mark_lit().len() as int) =~= s@);
        }
        assert(s@ != mark_lit());
    }
    if !lit_at_exec(s, 0, "{\"waitToReachMark\":{\"axes\":{") {
        return None;
    }
    if len < 28 + 3 {
        return None;
    }
    if !lit_at_exec(s, len - 3, "}}}") {
        proof {
            assert(s@.subrange(s@.len() - 3, s@.len() as int) =~= s@.subrange(
                s@.len() - 3,
                s@.len() - 3 + wait_suffix().len(),
            ));
        }
        return None;
    }
    proof {
        assert(s@.subrange(s@.len() - 3, s@.len() as int) =~= s@.subrange(
            s@.len() - 3,
            s@.len() - 3 + wait_suffix().len(),
        ));
        assert(s@ != mark_lit());
    }
    let start: usize = 28;
    let end = len - 3;
    if start == end {
        let axes: Vec<(String, bool)> = Vec::new();
        proof {
            assert(axes@.map_values(|p: (String, bool)| (p.0@, p.1)) =~= Seq::<
                (Seq<char>, bool),
            >::empty());
        }
        return Some(HostDirective::WaitToReachMark { axes });
    }
    match entries_from_exec(s, start, end) {
        Some(axes) => Some(HostDirective::WaitToReachMark { axes }),
        None => None,
    }
}

} // verus!
