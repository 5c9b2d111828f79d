//! Printing of byte strings that may not be UTF-8.

use vstd::prelude::*;

use crate::utils::{chars_to_string, digits, push_digits};

verus! {

/// What the UTF-8 sequence at a position of some bytes is
#[derive(Debug, Clone, Copy, PartialEq, Eq, Structural)]
pub enum Utf8Step {
    /// A well-formed sequence of `width` bytes, encoding `scalar`
    Valid { scalar: u32, width: usize },
    /// An ill-formed sequence: its longest prefix that could start a
    /// well-formed one has `len` bytes
    Invalid { len: usize },
    /// The bytes end inside a sequence that could still be well-formed
    Truncated,
}

/// Whether `b` is a UTF-8 continuation byte
pub open spec fn is_cont(b: u8) -> bool {
    0x80 <= b <= 0xBF
}

/// Whether `b1` may follow the leading byte `b0` of a three byte sequence
pub open spec fn second_of_three(b0: u8, b1: u8) -> bool {
    ||| b0 == 0xE0 && 0xA0 <= b1 <= 0xBF
    ||| 0xE1 <= b0 <= 0xEC && is_cont(b1)
    ||| b0 == 0xED && 0x80 <= b1 <= 0x9F
    ||| 0xEE <= b0 <= 0xEF && is_cont(b1)
}

/// Whether `b1` may follow the leading byte `b0` of a four byte sequence
pub open spec fn second_of_four(b0: u8, b1: u8) -> bool {
    ||| b0 == 0xF0 && 0x90 <= b1 <= 0xBF
    ||| 0xF1 <= b0 <= 0xF3 && is_cont(b1)
    ||| b0 == 0xF4 && 0x80 <= b1 <= 0x8F
}

/// The UTF-8 sequence at `i`, by the table of well-formed byte sequences
/// of the Unicode standard.  An ill-formed sequence ends at the first byte
/// that cannot continue it.
pub open spec fn utf8_step_spec(s: Seq<u8>, i: int) -> Utf8Step
    recommends
        0 <= i < s.len(),
{
    let n = s.len();
    let b0 = s[i];
    if b0 < 0x80 {
        Utf8Step::Valid { scalar: b0 as u32, width: 1 }
    } else if 0xC2 <= b0 <= 0xDF {
        if i + 1 >= n {
            Utf8Step::Truncated
        } else if !is_cont(s[i + 1]) {
            Utf8Step::Invalid { len: 1 }
        } else {
            Utf8Step::Valid { scalar: ((b0 - 0xC0) * 64 + (s[i + 1] - 0x80)) as u32, width: 2 }
        }
    } else if 0xE0 <= b0 <= 0xEF {
        if i + 1 >= n {
            Utf8Step::Truncated
        } else if !second_of_three(b0, s[i + 1]) {
            Utf8Step::Invalid { len: 1 }
        } else if i + 2 >= n {
            Utf8Step::Truncated
        } else if !is_cont(s[i + 2]) {
            Utf8Step::Invalid { len: 2 }
        } else {
            Utf8Step::Valid {
                scalar: ((b0 - 0xE0) * 4096 + (s[i + 1] - 0x80) * 64 + (s[i + 2] - 0x80)) as u32,
                width: 3,
            }
        }
    } else if 0xF0 <= b0 <= 0xF4 {
        if i + 1 >= n {
            Utf8Step::Truncated
        } else if !second_of_four(b0, s[i + 1]) {
            Utf8Step::Invalid { len: 1 }
        } else if i + 2 >= n {
            Utf8Step::Truncated
        } else if !is_cont(s[i + 2]) {
            Utf8Step::Invalid { len: 2 }
        } else if i + 3 >= n {
            Utf8Step::Truncated
        } else if !is_cont(s[i + 3]) {
            Utf8Step::Invalid { len: 3 }
        } else {
            Utf8Step::Valid {
                scalar: ((b0 - 0xF0) * 262144 + (s[i + 1] - 0x80) * 4096 + (s[i + 2] - 0x80) * 64
                    + (s[i + 3] - 0x80)) as u32,
                width: 4,
            }
        }
    } else {
        Utf8Step::Invalid { len: 1 }
    }
}

/// A step always moves forward by at most four bytes
pub proof fn lemma_step_bounds(s: Seq<u8>, i: int)
    requires
        0 <= i < s.len(),
    ensures
        utf8_step_spec(s, i) matches Utf8Step::Valid { width, .. } ==> 1 <= width <= 4 && i
            + width <= s.len(),
        utf8_step_spec(s, i) matches Utf8Step::Invalid { len } ==> 1 <= len <= 3 && i + len
            <= s.len(),
{
}

/// The text that `char::escape_default` gives for the scalar `c`
pub open spec fn escape_char(c: u32) -> Seq<char> {
    if c == 9 {
        seq!['\\', 't']
    } else if c == 13 {
        seq!['\\', 'r']
    } else if c == 10 {
        seq!['\\', 'n']
    } else if c == 0x5C || c == 0x27 || c == 0x22 {
        seq!['\\', c as char]
    } else if 0x20 <= c <= 0x7E {
        seq![c as char]
    } else {
        seq!['\\', 'u', '{'] + digits(c as nat, 16, false) + seq!['}']
    }
}

/// The text for some bytes written as `\x` and upper case hex digits each
pub open spec fn hex_bytes(b: Seq<u8>) -> Seq<char>
    decreases b.len(),
{
    if b.len() == 0 {
        Seq::empty()
    } else {
        hex_bytes(b.drop_last()) + seq!['\\', 'x'] + digits(b.last() as nat, 16, true)
    }
}

/// The text of `fmt_bstr` for the bytes from `i` on: each well-formed
/// sequence escaped as its character; for each ill-formed one, its bytes and
/// the byte after it in hex, before going on from the byte after it.
pub open spec fn bstr_text(s: Seq<u8>, i: int) -> Seq<char>
    decreases s.len() - i,
{
    if i < 0 || i >= s.len() {
        Seq::empty()
    } else {
        proof {
            lemma_step_bounds(s, i);
        }
        match utf8_step_spec(s, i) {
            Utf8Step::Valid { scalar, width } => escape_char(scalar) + bstr_text(s, i + width),
            Utf8Step::Invalid { len } => hex_bytes(s.subrange(i, i + len + 1)) + bstr_text(
                s,
                i + len,
            ),
            Utf8Step::Truncated => Seq::empty(),
        }
    }
}

/// Whether `fmt_bstr` can print the bytes from `i` on: no ill-formed
/// sequence is the last thing in them, and they do not end inside a
/// sequence.
pub open spec fn bstr_ok(s: Seq<u8>, i: int) -> bool
    decreases s.len() - i,
{
    if i < 0 || i >= s.len() {
        true
    } else {
        proof {
            lemma_step_bounds(s, i);
        }
        match utf8_step_spec(s, i) {
            Utf8Step::Valid { width, .. } => bstr_ok(s, i + width),
            Utf8Step::Invalid { len } => i + len < s.len() && bstr_ok(s, i + len),
            Utf8Step::Truncated => false,
        }
    }
}

/// The UTF-8 sequence at `i`
pub fn utf8_step(s: &[u8], i: usize) -> (res: Utf8Step)
    requires
        i < s@.len(),
    ensures
        res == utf8_step_spec(s@, i as int),
{
    let n = s.len();
    let b0 = s[i];
    if b0 < 0x80 {
        Utf8Step::Valid { scalar: b0 as u32, width: 1 }
    } else if 0xC2 <= b0 && b0 <= 0xDF {
        if i + 1 >= n {
            Utf8Step::Truncated
        } else if !(0x80 <= s[i + 1] && s[i + 1] <= 0xBF) {
            Utf8Step::Invalid { len: 1 }
        } else {
            Utf8Step::Valid {
                scalar: (b0 as u32 - 0xC0) * 64 + (s[i + 1] as u32 - 0x80),
                width: 2,
            }
        }
    } else if 0xE0 <= b0 && b0 <= 0xEF {
        if i + 1 >= n {
            Utf8Step::Truncated
        } else {
            let b1 = s[i + 1];
            let ok = (b0 == 0xE0 && 0xA0 <= b1 && b1 <= 0xBF) || (0xE1 <= b0 && b0 <= 0xEC && 0x80
                <= b1 && b1 <= 0xBF) || (b0 == 0xED && 0x80 <= b1 && b1 <= 0x9F) || (0xEE <= b0
                && b0 <= 0xEF && 0x80 <= b1 && b1 <= 0xBF);
            if !ok {
                Utf8Step::Invalid { len: 1 }
            } else if i + 2 >= n {
                Utf8Step::Truncated
            } else if !(0x80 <= s[i + 2] && s[i + 2] <= 0xBF) {
                Utf8Step::Invalid { len: 2 }
            } else {
                Utf8Step::Valid {
                    scalar: (b0 as u32 - 0xE0) * 4096 + (b1 as u32 - 0x80) * 64 + (s[i + 2] as u32
                        - 0x80),
                    width: 3,
                }
            }
        }
    } else if 0xF0 <= b0 && b0 <= 0xF4 {
        if i + 1 >= n {
            Utf8Step::Truncated
        } else {
            let b1 = s[i + 1];
            let ok = (b0 == 0xF0 && 0x90 <= b1 && b1 <= 0xBF) || (0xF1 <= b0 && b0 <= 0xF3 && 0x80
                <= b1 && b1 <= 0xBF) || (b0 == 0xF4 && 0x80 <= b1 && b1 <= 0x8F);
            if !ok {
                Utf8Step::Invalid { len: 1 }
            } else if i + 2 >= n {
                Utf8Step::Truncated
            } else if !(0x80 <= s[i + 2] && s[i + 2] <= 0xBF) {
                Utf8Step::Invalid { len: 2 }
            } else if i + 3 >= n {
                Utf8Step::Truncated
            } else if !(0x80 <= s[i + 3] && s[i + 3] <= 0xBF) {
                Utf8Step::Invalid { len: 3 }
            } else {
                Utf8Step::Valid {
                    scalar: (b0 as u32 - 0xF0) * 262144 + (b1 as u32 - 0x80) * 4096 + (s[i + 2] as u32
                        - 0x80) * 64 + (s[i + 3] as u32 - 0x80),
                    width: 4,
                }
            }
        }
    } else {
        Utf8Step::Invalid { len: 1 }
    }
}

/// Append the escaped form of the scalar `c`
fn push_escaped(out: &mut Vec<char>, c: u32)
    ensures
        final(out)@ == old(out)@ + escape_char(c),
{
    let ghost start = out@;
    if c == 9 {
        out.push('\\');
        out.push('t');
    } else if c == 13 {
        out.push('\\');
        out.push('r');
    } else if c == 10 {
        out.push('\\');
        out.push('n');
    } else if c == 0x5C || c == 0x27 || c == 0x22 {
        out.push('\\');
        out.push((c as u8) as char);
    } else if 0x20 <= c && c <= 0x7E {
        out.push((c as u8) as char);
    } else {
        out.push('\\');
        out.push('u');
        out.push('{');
        push_digits(out, c as u64, 16, false);
        out.push('}');
    }
    assert(out@ =~= start + escape_char(c));
}

/// Append some bytes in hex
fn push_hex_bytes(out: &mut Vec<char>, b: &[u8])
    ensures
        final(out)@ == old(out)@ + hex_bytes(b@),
{
    let ghost start = out@;
    let mut i: usize = 0;
    assert(b@.take(0) =~= Seq::<u8>::empty());
    assert(start + hex_bytes(b@.take(0)) =~= start);
    while i < b.len()
        invariant
            i <= b@.len(),
            out@ == start + hex_bytes(b@.take(i as int)),
        decreases b@.len() - i,
    {
        out.push('\\');
        out.push('x');
        push_digits(out, b[i] as u64, 16, true);
        proof {
            assert(b@.take(i + 1).drop_last() =~= b@.take(i as int));
        }
        i = i + 1;
        assert(out@ =~= start + hex_bytes(b@.take(i as int)));
    }
    assert(b@.take(i as int) =~= b@);
}

/// Whether `fmt_bstr` can print the bytes
pub fn bstr_printable(s: &[u8]) -> (res: bool)
    ensures
        res == bstr_ok(s@, 0),
{
    let mut i: usize = 0;
    while i < s.len()
        invariant
            i <= s@.len(),
            bstr_ok(s@, 0) == bstr_ok(s@, i as int),
        decreases s@.len() - i,
    {
        proof {
            lemma_step_bounds(s@, i as int);
        }
        match utf8_step(s, i) {
            Utf8Step::Valid { width, .. } => {
                i = i + width;
            },
            Utf8Step::Invalid { len } => {
                if i + len >= s.len() {
                    return false;
                }
                i = i + len;
            },
            Utf8Step::Truncated => {
                return false;
            },
        }
    }
    true
}

/// Append the printed form of some bytes
pub fn push_bstr(out: &mut Vec<char>, s: &[u8])
    requires
        bstr_ok(s@, 0),
    ensures
        final(out)@ == old(out)@ + bstr_text(s@, 0),
{
    let ghost start = out@;
    let mut i: usize = 0;
    assert(start + bstr_text(s@, 0) =~= out@ + bstr_text(s@, 0));
    while i < s.len()
        invariant
            i <= s@.len(),
            bstr_ok(s@, i as int),
            start + bstr_text(s@, 0) == out@ + bstr_text(s@, i as int),
        decreases s@.len() - i,
    {
        proof {
            lemma_step_bounds(s@, i as int);
        }
        let ghost before = out@;
        match utf8_step(s, i) {
            Utf8Step::Valid { scalar, width } => {
                push_escaped(out, scalar);
                proof {
                    assert(before + bstr_text(s@, i as int) =~= out@ + bstr_text(
                        s@,
                        i + width,
                    ));
                }
                i = i + width;
            },
            Utf8Step::Invalid { len } => {
                let bytes = slice_subrange(s, i, i + len + 1);
                push_hex_bytes(out, bytes);
                proof {
                    assert(before + bstr_text(s@, i as int) =~= out@ + bstr_text(s@, i + len));
                }
                i = i + len;
            },
            Utf8Step::Truncated => {
                assert(false);
            },
        }
    }
    assert(bstr_text(s@, i as int) =~= Seq::<char>::empty());
}

/// The bytes of `s` from `lo` up to `hi`
fn slice_subrange(s: &[u8], lo: usize, hi: usize) -> (res: &[u8])
    requires
        lo <= hi <= s@.len(),
    ensures
        res@ == s@.subrange(lo as int, hi as int),
{
    vstd::slice::slice_subrange(s, lo, hi)
}

/// Get a nicely formatted version of a binary string
pub fn fmt_bstr(s: &[u8]) -> (res: String)
    requires
        bstr_ok(s@, 0),
    ensures
        res@ == bstr_text(s@, 0),
{
    let mut out: Vec<char> = Vec::new();
    push_bstr(&mut out, s);
    assert(out@ =~= bstr_text(s@, 0));
    chars_to_string(out.as_slice())
}

} // verus!
