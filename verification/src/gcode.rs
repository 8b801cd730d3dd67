//! Framing of GCode lines for the serial link.
//!
//! A committed line is sent as `N<line> <gcode>*<checksum>\n`, where the
//! checksum is the XOR of every byte that precedes the `*`.  Un-numbered
//! lines (tickles) carry no `N` prefix and, depending on configuration, no
//! checksum.

use vstd::prelude::*;

verus! {

/// One line bound for the serial port: the bare GCode, the protocol line
/// number it was committed under (if any), and whether a checksum is added.
#[derive(Clone, Debug)]
pub struct GCodeLine {
    pub gcode: String,
    pub line_number: Option<u32>,
    pub checksum: bool,
}

/// XOR of all bytes of `s`.
pub open spec fn xor_bytes(s: Seq<u8>) -> u8
    decreases s.len(),
{
    if s.len() == 0 {
        0
    } else {
        xor_bytes(s.drop_last()) ^ s.last()
    }
}

/// The character for one decimal digit.
pub open spec fn digit_char(d: nat) -> char {
    if d == 0 {
        '0'
    } else if d == 1 {
        '1'
    } else if d == 2 {
        '2'
    } else if d == 3 {
        '3'
    } else if d == 4 {
        '4'
    } else if d == 5 {
        '5'
    } else if d == 6 {
        '6'
    } else if d == 7 {
        '7'
    } else if d == 8 {
        '8'
    } else {
        '9'
    }
}

/// The decimal rendering of `n`, most significant digit first, no sign and
/// no leading zeros (a single `'0'` for zero).
pub open spec fn dec_of(n: nat) -> Seq<char>
    decreases n,
{
    if n < 10 {
        seq![digit_char(n)]
    } else {
        dec_of(n / 10).push(digit_char(n % 10))
    }
}

/// Appends the character of digit `d` to `s`.
fn push_digit(s: &mut String, d: u32)
    requires
        d < 10,
    ensures
        final(s)@ == old(s)@.push(digit_char(d as nat)),
{
    proof {
        reveal_strlit("0");
        reveal_strlit("1");
        reveal_strlit("2");
        reveal_strlit("3");
        reveal_strlit("4");
        reveal_strlit("5");
        reveal_strlit("6");
        reveal_strlit("7");
        reveal_strlit("8");
        reveal_strlit("9");
    }
    match d {
        0 => s.append("0"),
        1 => s.append("1"),
        2 => s.append("2"),
        3 => s.append("3"),
        4 => s.append("4"),
        5 => s.append("5"),
        6 => s.append("6"),
        7 => s.append("7"),
        8 => s.append("8"),
        _ => s.append("9"),
    }
    proof {
        assert(final(s)@ =~= old(s)@.push(digit_char(d as nat)));
    }
}

/// Appends the decimal rendering of `n` to `s`.
pub fn append_dec(s: &mut String, n: u32)
    ensures
        final(s)@ == old(s)@ + dec_of(n as nat),
    decreases n,
{
    if n < 10 {
        push_digit(s, n);
        proof {
            assert(final(s)@ =~= old(s)@ + dec_of(n as nat));
        }
    } else {
        append_dec(s, n / 10);
        push_digit(s, n % 10);
        proof {
            assert(final(s)@ =~= old(s)@ + dec_of(n as nat));
        }
    }
}

/// The decimal rendering of `n` as a fresh string.
pub fn u32_to_dec(n: u32) -> (s: String)
    ensures
        s@ == dec_of(n as nat),
{
    let mut s = String::new();
    append_dec(&mut s, n);
    proof {
        assert(s@ =~= dec_of(n as nat));
    }
    s
}

/// XOR of all bytes of `bytes`.
pub fn checksum_of(bytes: &[u8]) -> (c: u8)
    ensures
        c == xor_bytes(bytes@),
{
    let mut acc: u8 = 0;
    let mut i: usize = 0;
    while i < bytes.len()
        invariant
            i <= bytes@.len(),
            acc == xor_bytes(bytes@.subrange(0, i as int)),
        decreases bytes@.len() - i,
    {
        proof {
            assert(bytes@.subrange(0, i + 1).drop_last() =~= bytes@.subrange(0, i as int));
            assert(bytes@.subrange(0, i + 1).last() == bytes@[i as int]);
        }
        acc = acc ^ bytes[i];
        i = i + 1;
    }
    proof {
        assert(bytes@.subrange(0, bytes@.len() as int) =~= bytes@);
    }
    acc
}

/// The framed wire form of a line: what precedes the checksum, as characters.
pub open spec fn frame_prefix(gcode: Seq<char>, line_number: Option<u32>) -> Seq<char> {
    match line_number {
        Some(n) => seq!['N'] + dec_of(n as nat) + seq![' '] + gcode,
        None => gcode,
    }
}

/// The full framed wire form of a line, terminated by a newline.  With a
/// checksum the prefix is followed by `*` and the XOR of the prefix's bytes.
pub open spec fn spec_encode_line(
    gcode: Seq<char>,
    line_number: Option<u32>,
    checksum: bool,
) -> Seq<char> {
    let prefix = frame_prefix(gcode, line_number);
    if checksum {
        prefix + seq!['*'] + dec_of(
            xor_bytes(vstd::utf8::encode_utf8(prefix)) as nat,
        ) + seq!['\n']
    } else {
        prefix + seq!['\n']
    }
}

/// Encodes one line for the wire.
pub fn encode_line(line: &GCodeLine) -> (wire: String)
    ensures
        wire@ == spec_encode_line(line.gcode@, line.line_number, line.checksum),
{
    proof {
        reveal_strlit("N");
        reveal_strlit(" ");
        reveal_strlit("*");
        reveal_strlit("\n");
    }
    let mut wire = String::new();
    match line.line_number {
        Some(n) => {
            wire.append("N");
            append_dec(&mut wire, n);
            wire.append(" ");
        }
        None => {}
    }
    wire.append(line.gcode.as_str());
    proof {
        assert(wire@ =~= frame_prefix(line.gcode@, line.line_number));
    }
    if line.checksum {
        let c = checksum_of(wire.as_str().as_bytes());
        wire.append("*");
        append_dec(&mut wire, c as u32);
        wire.append("\n");
        proof {
            assert(wire@ =~= spec_encode_line(line.gcode@, line.line_number, line.checksum));
        }
    } else {
        wire.append("\n");
        proof {
            assert(wire@ =~= spec_encode_line(line.gcode@, line.line_number, line.checksum));
        }
    }
    wire
}

} // verus!
