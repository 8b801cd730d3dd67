//! Character-level text helpers: ASCII case folding and command-token
//! matching, stated over `Seq<char>` views.

use vstd::prelude::*;

verus! {

/// ASCII lower-casing of one character; everything but `'A'..'Z'` is kept.
pub open spec fn lower_char(c: char) -> char {
    if c == 'A' {
        'a'
    } else if c == 'B' {
        'b'
    } else if c == 'C' {
        'c'
    } else if c == 'D' {
        'd'
    } else if c == 'E' {
        'e'
    } else if c == 'F' {
        'f'
    } else if c == 'G' {
        'g'
    } else if c == 'H' {
        'h'
    } else if c == 'I' {
        'i'
    } else if c == 'J' {
        'j'
    } else if c == 'K' {
        'k'
    } else if c == 'L' {
        'l'
    } else if c == 'M' {
        'm'
    } else if c == 'N' {
        'n'
    } else if c == 'O' {
        'o'
    } else if c == 'P' {
        'p'
    } else if c == 'Q' {
        'q'
    } else if c == 'R' {
        'r'
    } else if c == 'S' {
        's'
    } else if c == 'T' {
        't'
    } else if c == 'U' {
        'u'
    } else if c == 'V' {
        'v'
    } else if c == 'W' {
        'w'
    } else if c == 'X' {
        'x'
    } else if c == 'Y' {
        'y'
    } else if c == 'Z' {
        'z'
    } else {
        c
    }
}

/// ASCII lower-casing of a character sequence.
pub open spec fn lower_seq(s: Seq<char>) -> Seq<char> {
    s.map_values(|c: char| lower_char(c))
}

/// Lower-cases one character.
pub fn lower_char_exec(c: char) -> (r: char)
    ensures
        r == lower_char(c),
{
    if c == 'A' {
        'a'
    } else if c == 'B' {
        'b'
    } else if c == 'C' {
        'c'
    } else if c == 'D' {
        'd'
    } else if c == 'E' {
        'e'
    } else if c == 'F' {
        'f'
    } else if c == 'G' {
        'g'
    } else if c == 'H' {
        'h'
    } else if c == 'I' {
        'i'
    } else if c == 'J' {
        'j'
    } else if c == 'K' {
        'k'
    } else if c == 'L' {
        'l'
    } else if c == 'M' {
        'm'
    } else if c == 'N' {
        'n'
    } else if c == 'O' {
        'o'
    } else if c == 'P' {
        'p'
    } else if c == 'Q' {
        'q'
    } else if c == 'R' {
        'r'
    } else if c == 'S' {
        's'
    } else if c == 'T' {
        't'
    } else if c == 'U' {
        'u'
    } else if c == 'V' {
        'v'
    } else if c == 'W' {
        'w'
    } else if c == 'X' {
        'x'
    } else if c == 'Y' {
        'y'
    } else if c == 'Z' {
        'z'
    } else {
        c
    }
}

/// True when `a` and `b` agree up to ASCII case: how the driver matches a
/// configured axis address against an address parsed off the wire.
pub open spec fn lower_eq(a: Seq<char>, b: Seq<char>) -> bool {
    lower_seq(a) == lower_seq(b)
}

/// Decides `lower_eq(a@, b@)`.
pub fn lower_matches(a: &str, b: &str) -> (r: bool)
    ensures
        r == lower_eq(a@, b@),
{
    let a_len = a.unicode_len();
    let b_len = b.unicode_len();
    if a_len != b_len {
        proof {
            assert(lower_seq(a@).len() == a@.len());
            assert(lower_seq(b@).len() == b@.len());
        }
        return false;
    }
    let mut i: usize = 0;
    while i < a_len
        invariant
            i <= a_len,
            a_len == a@.len(),
            a_len == b@.len(),
            forall|j: int| 0 <= j < i ==> lower_char(a@[j]) == lower_char(b@[j]),
        decreases a_len - i,
    {
        if lower_char_exec(a.get_char(i)) != lower_char_exec(b.get_char(i)) {
            proof {
                assert(lower_seq(a@)[i as int] != lower_seq(b@)[i as int]);
            }
            return false;
        }
        i = i + 1;
    }
    proof {
        assert(lower_seq(a@) =~= lower_seq(b@));
    }
    true
}

/// True when `code` is the leading command token of `gcode`: `code` holds no
/// space, `gcode` starts with `code`, and `code` ends at a space or at the
/// end of `gcode`.
pub open spec fn code_match(gcode: Seq<char>, code: Seq<char>) -> bool {
    &&& code.len() <= gcode.len()
    &&& gcode.take(code.len() as int) == code
    &&& !code.contains(' ')
    &&& (gcode.len() == code.len() || gcode[code.len() as int] == ' ')
}

/// Decides `code_match(gcode@, code@)`.
pub fn code_matches(gcode: &str, code: &str) -> (r: bool)
    ensures
        r == code_match(gcode@, code@),
{
    let g_len = gcode.unicode_len();
    let c_len = code.unicode_len();
    if c_len > g_len {
        return false;
    }
    let mut i: usize = 0;
    while i < c_len
        invariant
            i <= c_len,
            c_len == code@.len(),
            g_len == gcode@.len(),
            c_len <= g_len,
            forall|j: int| 0 <= j < i ==> gcode@[j] == code@[j] && code@[j] != ' ',
        decreases c_len - i,
    {
        let cc = code.get_char(i);
        if cc == ' ' {
            return false;
        }
        if gcode.get_char(i) != cc {
            proof {
                assert(gcode@.take(c_len as int)[i as int] != code@[i as int]);
            }
            return false;
        }
        i = i + 1;
    }
    proof {
        assert(gcode@.take(c_len as int) =~= code@);
        assert(forall|j: int| 0 <= j < code@.len() ==> code@[j] != ' ');
    }
    if g_len == c_len {
        true
    } else {
        gcode.get_char(c_len) == ' '
    }
}

/// True when the command token of `gcode` appears in `codes`.
pub open spec fn token_in_codes(gcode: Seq<char>, codes: Seq<String>) -> bool {
    exists|i: int| 0 <= i < codes.len() && code_match(gcode, codes[i]@)
}

/// Decides `token_in_codes(gcode@, codes@)`.
pub fn token_in_codes_exec(gcode: &str, codes: &Vec<String>) -> (r: bool)
    ensures
        r == token_in_codes(gcode@, codes@),
{
    let mut i: usize = 0;
    while i < codes.len()
        invariant
            i <= codes@.len(),
            forall|j: int| 0 <= j < i ==> !code_match(gcode@, codes@[j]@),
        decreases codes@.len() - i,
    {
        if code_matches(gcode, codes[i].as_str()) {
            return true;
        }
        i = i + 1;
    }
    false
}

} // verus!
