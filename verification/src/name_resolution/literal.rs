//! Processing of number and string literals.

use vstd::prelude::*;

verus! {

/// Value of a hexadecimal digit, if `c` is one.
pub open spec fn hex_digit_value(c: char) -> Option<u64> {
    if '0' <= c && c <= '9' {
        Some((c as u64 - '0' as u64) as u64)
    } else if 'a' <= c && c <= 'f' {
        Some((c as u64 - 'a' as u64 + 10) as u64)
    } else if 'A' <= c && c <= 'F' {
        Some((c as u64 - 'A' as u64 + 10) as u64)
    } else {
        None
    }
}

/// Whether every character of `s` is a hexadecimal digit.
pub open spec fn all_hex_digits(s: Seq<char>) -> bool {
    forall|i: int| 0 <= i < s.len() ==> (#[trigger] hex_digit_value(s[i])) is Some
}

/// The number written by the hexadecimal digits `s`, most significant first.
pub open spec fn hex_number_value(s: Seq<char>) -> nat
    decreases s.len(),
{
    if s.len() == 0 {
        0
    } else {
        hex_number_value(s.drop_last()) * 16 + match hex_digit_value(s.last()) {
            Some(d) => d as nat,
            None => 0nat,
        }
    }
}

/// Value of a single hexadecimal digit.
pub fn hex_digit(ch: char) -> (res: Option<u64>)
    ensures
        res == hex_digit_value(ch),
{
    if '0' <= ch && ch <= '9' {
        Some(ch as u64 - '0' as u64)
    } else if 'a' <= ch && ch <= 'f' {
        Some(ch as u64 - 'a' as u64 + 10)
    } else if 'A' <= ch && ch <= 'F' {
        Some(ch as u64 - 'A' as u64 + 10)
    } else {
        None
    }
}

proof fn lemma_wrap_step(prev: nat, d: nat)
    requires
        d < 16,
    ensures
        ((((prev % 0x1_0000_0000_0000_0000) * 16) % 0x1_0000_0000_0000_0000 + d)
            % 0x1_0000_0000_0000_0000) == (prev * 16 + d) % 0x1_0000_0000_0000_0000,
{
    let m: int = 0x1_0000_0000_0000_0000;
    vstd::arithmetic::div_mod::lemma_mul_mod_noop_left(prev as int, 16, m);
    vstd::arithmetic::div_mod::lemma_add_mod_noop(
        (prev as int * 16) % m,
        d as int,
        m,
    );
    vstd::arithmetic::div_mod::lemma_add_mod_noop(prev as int * 16, d as int, m);
    vstd::arithmetic::div_mod::lemma_mod_twice(d as int, m);
    vstd::arithmetic::div_mod::lemma_mod_twice(prev as int * 16, m);
}

/// Parse a hexadecimal string into an integer, wrapping if too long.
/// Returns `None` when a character is not a hexadecimal digit.
pub fn hex_int(s: &[char]) -> (res: Option<u64>)
    ensures
        res is Some <==> all_hex_digits(s@),
        res matches Some(v) ==> v == hex_number_value(s@) % 0x1_0000_0000_0000_0000,
{
    let mut res: u64 = 0;
    let mut i: usize = 0;
    while i < s.len()
        invariant
            i <= s.len(),
            all_hex_digits(s@.take(i as int)),
            res == hex_number_value(s@.take(i as int)) % 0x1_0000_0000_0000_0000,
        decreases s.len() - i,
    {
        let digit = match hex_digit(s[i]) {
            Some(d) => d,
            None => {
                assert(!all_hex_digits(s@)) by {
                    assert(hex_digit_value(s@[i as int]) is None);
                }
                return None;
            },
        };
        proof {
            let t = s@.take(i as int + 1);
            assert(t.drop_last() =~= s@.take(i as int));
            assert(t.last() == s@[i as int]);
            lemma_wrap_step(hex_number_value(s@.take(i as int)), digit as nat);
            assert(all_hex_digits(t)) by {
                assert forall|j: int| 0 <= j < t.len() implies (#[trigger] hex_digit_value(
                    t[j],
                )) is Some by {
                    if j < i {
                        assert(t[j] == s@.take(i as int)[j]);
                    }
                }
            }
        }
        res = res.wrapping_mul(16);
        res = res.wrapping_add(digit);
        i = i + 1;
    }
    assert(s@.take(i as int) =~= s@);
    Some(res)
}

} // verus!

verus! {

// ---------------------------------------------------------------------------
// String literals
// ---------------------------------------------------------------------------

/// Why the escape sequences of a string literal could not be processed
#[derive(Debug, Clone, Copy, PartialEq, Eq, Structural)]
pub enum EscapeError {
    /// A backslash at the very end of the literal
    EofInEscape,
    /// A backslash followed by a character that starts no escape
    UnknownEscape(char),
    /// `\x` with fewer than two characters after it
    EofInHexEscape,
    /// `\x` followed by characters that are not a hexadecimal byte
    InvalidHexDigit,
    /// A decimal escape `\ddd` whose value does not fit in a byte
    InvalidDecimalEscape,
    /// `\u` not followed by `{`
    UnicodeMissingOpen,
    /// `\u{...` not closed by `}`
    UnicodeMissingClose,
    /// `\u{...}` whose digits do not form a decimal number that fits in 32 bits
    UnicodeInvalidNumber,
    /// `\u{...}` with a value of 2^31 or more
    UnicodeTooLarge,
}

/// Remove one leading `c`, if there is one
pub open spec fn strip_prefix(s: Seq<char>, c: char) -> Seq<char> {
    if s.len() > 0 && s[0] == c {
        s.drop_first()
    } else {
        s
    }
}

/// Remove one trailing `c`, if there is one
pub open spec fn strip_suffix(s: Seq<char>, c: char) -> Seq<char> {
    if s.len() > 0 && s.last() == c {
        s.drop_last()
    } else {
        s
    }
}

/// Remove all leading `c`
pub open spec fn trim_start(s: Seq<char>, c: char) -> Seq<char>
    decreases s.len(),
{
    if s.len() > 0 && s[0] == c {
        trim_start(s.drop_first(), c)
    } else {
        s
    }
}

/// Remove all trailing `c`
pub open spec fn trim_end(s: Seq<char>, c: char) -> Seq<char>
    decreases s.len(),
{
    if s.len() > 0 && s.last() == c {
        trim_end(s.drop_last(), c)
    } else {
        s
    }
}

/// The text of a string literal without its quotes or long brackets.
pub open spec fn literal_contents(s: Seq<char>) -> Seq<char> {
    if s.len() > 0 && s[0] == '\'' {
        strip_suffix(s.drop_first(), '\'')
    } else if s.len() > 0 && s[0] == '"' {
        strip_suffix(s.drop_first(), '"')
    } else {
        strip_suffix(
            strip_prefix(
                trim_end(trim_start(strip_suffix(strip_prefix(s, '['), ']'), '='), '='),
                '[',
            ),
            ']',
        )
    }
}

/// Remove all valid lua quote marks from the start and end of a string literal
pub fn string_remove_quotes(s: &[char]) -> (res: &[char])
    ensures
        res@ == literal_contents(s@),
{
    if s.len() > 0 && s[0] == '\'' {
        let t = &s[1..s.len()];
        assert(t@ =~= s@.drop_first());
        return strip_suffix_exec(t, '\'');
    } else if s.len() > 0 && s[0] == '"' {
        let t = &s[1..s.len()];
        assert(t@ =~= s@.drop_first());
        return strip_suffix_exec(t, '"');
    }
    // remove `[=[` / `]=]` long brackets.  Don't bother checking if they match
    // as the parser already did that.
    let s1 = strip_prefix_exec(s, '[');
    let s2 = strip_suffix_exec(s1, ']');
    let s3 = trim_start_exec(s2, '=');
    let s4 = trim_end_exec(s3, '=');
    let s5 = strip_prefix_exec(s4, '[');
    strip_suffix_exec(s5, ']')
}

fn strip_prefix_exec(s: &[char], c: char) -> (res: &[char])
    ensures
        res@ == strip_prefix(s@, c),
{
    if s.len() > 0 && s[0] == c {
        let t = &s[1..s.len()];
        assert(t@ =~= s@.drop_first());
        t
    } else {
        s
    }
}

fn strip_suffix_exec(s: &[char], c: char) -> (res: &[char])
    ensures
        res@ == strip_suffix(s@, c),
{
    if s.len() > 0 && s[s.len() - 1] == c {
        let t = &s[0..s.len() - 1];
        assert(t@ =~= s@.drop_last());
        t
    } else {
        s
    }
}

fn trim_start_exec(s: &[char], c: char) -> (res: &[char])
    ensures
        res@ == trim_start(s@, c),
{
    let mut i: usize = 0;
    assert(s@.skip(0) =~= s@);
    while i < s.len() && s[i] == c
        invariant
            i <= s.len(),
            trim_start(s@.skip(i as int), c) == trim_start(s@, c),
        decreases s.len() - i,
    {
        assert(s@.skip(i as int).drop_first() =~= s@.skip(i + 1));
        i = i + 1;
    }
    let t = &s[i..s.len()];
    assert(t@ =~= s@.skip(i as int));
    t
}

fn trim_end_exec(s: &[char], c: char) -> (res: &[char])
    ensures
        res@ == trim_end(s@, c),
{
    let mut j: usize = s.len();
    assert(s@.take(s.len() as int) =~= s@);
    while j > 0 && s[j - 1] == c
        invariant
            j <= s.len(),
            trim_end(s@.take(j as int), c) == trim_end(s@, c),
        decreases j,
    {
        assert(s@.take(j as int).drop_last() =~= s@.take(j - 1));
        j = j - 1;
    }
    let t = &s[0..j];
    assert(s@.take(s.len() as int) =~= s@);
    assert(t@ =~= s@.take(j as int));
    t
}

/// Characters skipped by the `\z` escape
pub open spec fn is_skip_space(c: char) -> bool {
    c == ' ' || c == '\x0C' || c == '\n' || c == '\r' || c == '\t' || c == '\x0B'
}

/// Number of leading characters of `s` that `\z` skips
pub open spec fn skip_space_run(s: Seq<char>) -> nat
    decreases s.len(),
{
    if s.len() > 0 && is_skip_space(s[0]) {
        1 + skip_space_run(s.drop_first())
    } else {
        0
    }
}

pub open spec fn is_decimal(c: char) -> bool {
    '0' <= c && c <= '9'
}

/// Number of leading characters of `s` that are hexadecimal digits
pub open spec fn hex_run(s: Seq<char>) -> nat
    decreases s.len(),
{
    if s.len() > 0 && hex_digit_value(s[0]) is Some {
        1 + hex_run(s.drop_first())
    } else {
        0
    }
}

/// The number written by the decimal digits `s`, most significant first.
pub open spec fn decimal_value(s: Seq<char>) -> nat
    decreases s.len(),
{
    if s.len() == 0 {
        0
    } else {
        decimal_value(s.drop_last()) * 10 + ((s.last() as int - '0' as int) as nat)
    }
}

pub open spec fn all_decimal(s: Seq<char>) -> bool {
    forall|i: int| 0 <= i < s.len() ==> #[trigger] is_decimal(s[i])
}

/// The byte written by the two characters of a `\x` escape, read as a
/// hexadecimal number with an optional leading `+`.
pub open spec fn hex_byte(a: char, b: char) -> Option<u8> {
    if a == '+' {
        match hex_digit_value(b) {
            Some(d) => Some(d as u8),
            None => None,
        }
    } else {
        match (hex_digit_value(a), hex_digit_value(b)) {
            (Some(x), Some(y)) => Some((x * 16 + y) as u8),
            _ => None,
        }
    }
}

/// Number of decimal digits, at most 2, at the start of `s`
pub open spec fn decimal_escape_len(s: Seq<char>) -> nat {
    if s.len() > 0 && is_decimal(s[0]) {
        if s.len() > 1 && is_decimal(s[1]) {
            2
        } else {
            1
        }
    } else {
        0
    }
}

/// Encoding of a code point in the early, up to 6 byte, UTF-8 scheme.
pub open spec fn legacy_utf8(num: u32) -> Seq<u8> {
    if num < 0x80 {
        seq![num as u8]
    } else if num < 0x800 {
        seq![(0xC0u8 | ((num >> 6) as u8)), (0x80u8 | ((num & 0x3F) as u8))]
    } else if num < 0x1_0000 {
        seq![
            (0xE0u8 | ((num >> 12) as u8)),
            (0x80u8 | (((num >> 6) & 0x3F) as u8)),
            (0x80u8 | ((num & 0x3F) as u8)),
        ]
    } else if num < 0x20_0000 {
        seq![
            (0xF0u8 | ((num >> 18) as u8)),
            (0x80u8 | (((num >> 12) & 0x3F) as u8)),
            (0x80u8 | (((num >> 6) & 0x3F) as u8)),
            (0x80u8 | ((num & 0x3F) as u8)),
        ]
    } else if num < 0x400_0000 {
        seq![
            (0xF8u8 | ((num >> 24) as u8)),
            (0x80u8 | (((num >> 18) & 0x3F) as u8)),
            (0x80u8 | (((num >> 12) & 0x3F) as u8)),
            (0x80u8 | (((num >> 6) & 0x3F) as u8)),
            (0x80u8 | ((num & 0x3F) as u8)),
        ]
    } else {
        seq![
            (0xFCu8 | ((num >> 30) as u8)),
            (0x80u8 | (((num >> 24) & 0x3F) as u8)),
            (0x80u8 | (((num >> 18) & 0x3F) as u8)),
            (0x80u8 | (((num >> 12) & 0x3F) as u8)),
            (0x80u8 | (((num >> 6) & 0x3F) as u8)),
            (0x80u8 | ((num & 0x3F) as u8)),
        ]
    }
}

/// A `\u{...}` escape whose text after the `u` is `rest`: the bytes it
/// writes and how many characters of `rest` it takes.  The digits between
/// the braces are any hexadecimal digits, and are then read as a decimal
/// number.
pub open spec fn unicode_escape_spec(rest: Seq<char>) -> Result<(Seq<u8>, nat), EscapeError> {
    if rest.len() == 0 || rest[0] != '{' {
        Err(EscapeError::UnicodeMissingOpen)
    } else {
        let k = hex_run(rest.drop_first()) as int;
        let digits = rest.subrange(1, 1 + k);
        if 1 + k >= rest.len() || rest[1 + k] != '}' {
            Err(EscapeError::UnicodeMissingClose)
        } else if k == 0 || !all_decimal(digits) || decimal_value(digits) > u32::MAX {
            Err(EscapeError::UnicodeInvalidNumber)
        } else if decimal_value(digits) >= 0x8000_0000 {
            Err(EscapeError::UnicodeTooLarge)
        } else {
            Ok((legacy_utf8(decimal_value(digits) as u32), (k + 2) as nat))
        }
    }
}

/// The escape sequence `\c` followed by `rest`: the bytes it writes and how
/// many characters of `rest` it takes, or why it is invalid.
pub open spec fn escape_spec(c: char, rest: Seq<char>) -> Result<(Seq<u8>, nat), EscapeError> {
    if c == 'a' {
        Ok((seq![0x07u8], 0))
    } else if c == 'b' {
        Ok((seq![0x08u8], 0))
    } else if c == 'f' {
        Ok((seq![0x0Cu8], 0))
    } else if c == 'n' || c == '\n' {
        Ok((seq![0x0Au8], 0))
    } else if c == 'r' {
        Ok((seq![0x0Du8], 0))
    } else if c == 't' {
        Ok((seq![0x09u8], 0))
    } else if c == 'v' {
        Ok((seq![0x0Bu8], 0))
    } else if c == '\\' {
        Ok((seq![0x5Cu8], 0))
    } else if c == '"' {
        Ok((seq![0x22u8], 0))
    } else if c == '\'' {
        Ok((seq![0x27u8], 0))
    } else if c == 'z' {
        Ok((Seq::empty(), skip_space_run(rest)))
    } else if c == 'x' {
        if rest.len() < 2 {
            Err(EscapeError::EofInHexEscape)
        } else {
            match hex_byte(rest[0], rest[1]) {
                Some(b) => Ok((seq![b], 2)),
                None => Err(EscapeError::InvalidHexDigit),
            }
        }
    } else if is_decimal(c) {
        let n = decimal_escape_len(rest);
        let v = decimal_value(seq![c] + rest.take(n as int));
        if v <= 255 {
            Ok((seq![v as u8], n))
        } else {
            Err(EscapeError::InvalidDecimalEscape)
        }
    } else if c == 'u' {
        unicode_escape_spec(rest)
    } else {
        Err(EscapeError::UnknownEscape(c))
    }
}

/// The bytes of a string literal's contents with all escape sequences
/// processed; other characters are written as UTF-8.
pub open spec fn unescape(s: Seq<char>) -> Result<Seq<u8>, EscapeError>
    decreases s.len(),
{
    if s.len() == 0 {
        Ok(Seq::empty())
    } else if s[0] != '\\' {
        match unescape(s.drop_first()) {
            Ok(rest) => Ok(vstd::utf8::encode_utf8(seq![s[0]]) + rest),
            Err(e) => Err(e),
        }
    } else if s.len() < 2 {
        Err(EscapeError::EofInEscape)
    } else {
        match escape_spec(s[1], s.skip(2)) {
            Ok((bytes, n)) => if 2 + n <= s.len() {
                match unescape(s.skip(2 + n as int)) {
                    Ok(rest) => Ok(bytes + rest),
                    Err(e) => Err(e),
                }
            } else {
                Err(EscapeError::EofInEscape)
            },
            Err(e) => Err(e),
        }
    }
}

} // verus!

verus! {

/// Append the UTF-8 encoding of `ch` to `out`
pub fn push_utf8(out: &mut Vec<u8>, ch: char)
    ensures
        final(out)@ == old(out)@ + vstd::utf8::encode_utf8(seq![ch]),
{
    let v = ch as u32;
    proof {
        vstd::utf8::char_is_scalar(ch);
        reveal_with_fuel(vstd::utf8::encode_utf8, 2);
        assert(seq![ch].drop_first() =~= Seq::<char>::empty());
        assert(vstd::utf8::encode_utf8(seq![ch]) =~= vstd::utf8::encode_scalar(v));
    }
    if v <= 0x7F {
        out.push((v & 0x7F) as u8);
    } else if v <= 0x7FF {
        out.push(0xC0 | ((v >> 6) & 0x1F) as u8);
        out.push(0x80 | (v & 0x3F) as u8);
    } else if v <= 0xFFFF {
        out.push(0xE0 | ((v >> 12) & 0x0F) as u8);
        out.push(0x80 | ((v >> 6) & 0x3F) as u8);
        out.push(0x80 | (v & 0x3F) as u8);
    } else {
        out.push(0xF0 | ((v >> 18) & 0x7) as u8);
        out.push(0x80 | ((v >> 12) & 0x3F) as u8);
        out.push(0x80 | ((v >> 6) & 0x3F) as u8);
        out.push(0x80 | (v & 0x3F) as u8);
    }
}

/// Process and remove all escape sequences from the contents of a string
/// literal.
pub fn unescape_string(s: &[char]) -> (res: Result<Vec<u8>, EscapeError>)
    ensures
        res matches Ok(v) ==> unescape(s@) == Ok::<Seq<u8>, EscapeError>(v@),
        res matches Err(e) ==> unescape(s@) == Err::<Seq<u8>, EscapeError>(e),
{
    let mut output: Vec<u8> = Vec::new();
    let mut i: usize = 0;
    assert(s@.skip(0) =~= s@);
    while i < s.len()
        invariant
            i <= s.len(),
            unescape(s@) == match unescape(s@.skip(i as int)) {
                Ok(r) => Ok(output@ + r),
                Err(e) => Err(e),
            },
        decreases s.len() - i,
    {
        let ghost rest = s@.skip(i as int);
        let ch = s[i];
        i = i + 1;
        if ch != '\\' {
            let ghost before = output@;
            push_utf8(&mut output, ch);
            proof {
                assert(rest.drop_first() =~= s@.skip(i as int));
                match unescape(s@.skip(i as int)) {
                    Ok(r) => {
                        assert(output@ + r =~= before + (vstd::utf8::encode_utf8(seq![ch]) + r));
                    },
                    Err(e) => {},
                }
            }
            continue;
        }
        if i >= s.len() {
            return Err(EscapeError::EofInEscape);
        }
        let next = s[i];
        i = i + 1;
        let ghost before = output@;
        let ghost p = i;
        proof {
            assert(rest.skip(2) =~= s@.skip(i as int));
        }
        match_escape(next, &mut output, s, &mut i)?;
        proof {
            let (bytes, n) = escape_spec(next, s@.skip(p as int))->Ok_0;
            assert(rest.skip(2 + n as int) =~= s@.skip(i as int));
            match unescape(s@.skip(i as int)) {
                Ok(r) => {
                    assert(output@ + r =~= before + (bytes + r));
                },
                Err(e) => {},
            }
        }
    }
    assert(s@.skip(i as int) =~= Seq::<char>::empty());
    assert(output@ + Seq::<u8>::empty() =~= output@);
    Ok(output)
}

/// Process a single escape sequence, following the leading `\` and the
/// character `ch`; `pos` is the position in `input` after `ch`.
pub fn match_escape(ch: char, out: &mut Vec<u8>, input: &[char], pos: &mut usize) -> (res: Result<
    (),
    EscapeError,
>)
    requires
        *old(pos) <= input@.len(),
    ensures
        match escape_spec(ch, input@.skip(*old(pos) as int)) {
            Ok((bytes, n)) => {
                &&& res is Ok
                &&& final(out)@ == old(out)@ + bytes
                &&& *final(pos) == *old(pos) + n
                &&& *final(pos) <= input@.len()
            },
            Err(e) => res == Err::<(), EscapeError>(e),
        },
{
    let ghost rest = input@.skip(*pos as int);
    if ch == 'a' {
        out.push(0x07);
    } else if ch == 'b' {
        out.push(0x08);
    } else if ch == 'f' {
        out.push(0x0C);
    } else if ch == 'n' || ch == '\n' {
        out.push(0x0A);
    } else if ch == 'r' {
        out.push(0x0D);
    } else if ch == 't' {
        out.push(0x09);
    } else if ch == 'v' {
        out.push(0x0B);
    } else if ch == '\\' {
        out.push(0x5C);
    } else if ch == '"' {
        out.push(0x22);
    } else if ch == '\'' {
        out.push(0x27);
    } else if ch == 'z' {
        // skip whitespace
        let ghost start = *pos;
        while *pos < input.len() && (input[*pos] == ' ' || input[*pos] == '\x0C' || input[*pos]
            == '\n' || input[*pos] == '\r' || input[*pos] == '\t' || input[*pos] == '\x0B')
            invariant
                start <= *pos <= input@.len(),
                rest == input@.skip(start as int),
                skip_space_run(rest) == (*pos - start) + skip_space_run(input@.skip(*pos as int)),
                out@ == old(out)@,
            decreases input@.len() - *pos,
        {
            assert(input@.skip(*pos as int).drop_first() =~= input@.skip(*pos + 1));
            *pos = *pos + 1;
        }
        assert(out@ =~= old(out)@ + Seq::<u8>::empty());
    } else if ch == 'x' {
        let b = hex_escape(input, pos)?;
        out.push(b);
    } else if '0' <= ch && ch <= '9' {
        let b = decimal_escape(ch, input, pos)?;
        out.push(b);
    } else if ch == 'u' {
        unicode_escape(out, input, pos)?;
    } else {
        return Err(EscapeError::UnknownEscape(ch));
    }
    Ok(())
}

/// Parse a hex `\xFF` escape sequence; `pos` is just after the `x`.
pub fn hex_escape(input: &[char], pos: &mut usize) -> (res: Result<u8, EscapeError>)
    requires
        *old(pos) <= input@.len(),
    ensures
        match escape_spec('x', input@.skip(*old(pos) as int)) {
            Ok((bytes, n)) => res is Ok && bytes == seq![res->Ok_0] && *final(pos) == *old(pos)
                + n,
            Err(e) => res == Err::<u8, EscapeError>(e),
        },
{
    if input.len() - *pos < 2 {
        return Err(EscapeError::EofInHexEscape);
    }
    let a = input[*pos];
    let b = input[*pos + 1];
    *pos = *pos + 2;
    if a == '+' {
        match hex_digit(b) {
            Some(d) => Ok(d as u8),
            None => Err(EscapeError::InvalidHexDigit),
        }
    } else {
        match (hex_digit(a), hex_digit(b)) {
            (Some(x), Some(y)) => Ok((x * 16 + y) as u8),
            _ => Err(EscapeError::InvalidHexDigit),
        }
    }
}

/// Parse a decimal `\152` escape sequence; `ch` is its first digit and
/// `pos` is just after it.
pub fn decimal_escape(ch: char, input: &[char], pos: &mut usize) -> (res: Result<u8, EscapeError>)
    requires
        *old(pos) <= input@.len(),
        '0' <= ch <= '9',
    ensures
        match escape_spec(ch, input@.skip(*old(pos) as int)) {
            Ok((bytes, n)) => res is Ok && bytes == seq![res->Ok_0] && *final(pos) == *old(pos)
                + n,
            Err(e) => res == Err::<u8, EscapeError>(e),
        },
{
    let ghost rest = input@.skip(*pos as int);
    let mut value: u32 = ch as u32 - '0' as u32;
    let mut count: usize = 0;
    proof {
        let t = seq![ch];
        assert(t.drop_last() =~= Seq::<char>::empty());
        assert(decimal_value(Seq::<char>::empty()) == 0);
        assert(seq![ch] + rest.take(0) =~= t);
    }
    while count < 2 && *pos < input.len() && '0' <= input[*pos] && input[*pos] <= '9'
        invariant
            count <= 2,
            *pos == *old(pos) + count,
            *pos <= input@.len(),
            rest == input@.skip(*old(pos) as int),
            count <= decimal_escape_len(rest),
            value == decimal_value(seq![ch] + rest.take(count as int)),
            count == 0 ==> value < 10,
            count == 1 ==> value < 100,
            value < 1000,
        decreases 2 - count,
    {
        let d = input[*pos];
        proof {
            let t = seq![ch] + rest.take(count + 1);
            assert(t.drop_last() =~= seq![ch] + rest.take(count as int));
            assert(t.last() == d);
        }
        value = value * 10 + (d as u32 - '0' as u32);
        *pos = *pos + 1;
        count = count + 1;
    }
    assert(count == decimal_escape_len(rest));
    if value > 255 {
        return Err(EscapeError::InvalidDecimalEscape);
    }
    Ok(value as u8)
}

proof fn lemma_decimal_value_push(t: Seq<char>, c: char)
    ensures
        is_decimal(c) ==> decimal_value(t.push(c)) == decimal_value(t) * 10 + (c as int - '0' as int),
{
    assert(t.push(c).drop_last() =~= t);
}

/// Parse a unicode escape sequence `\u{...}`; `pos` is just after the `u`.
pub fn unicode_escape(out: &mut Vec<u8>, input: &[char], pos: &mut usize) -> (res: Result<
    (),
    EscapeError,
>)
    requires
        *old(pos) <= input@.len(),
    ensures
        match unicode_escape_spec(input@.skip(*old(pos) as int)) {
            Ok((bytes, n)) => {
                &&& res is Ok
                &&& final(out)@ == old(out)@ + bytes
                &&& *final(pos) == *old(pos) + n
                &&& *final(pos) <= input@.len()
            },
            Err(e) => res == Err::<(), EscapeError>(e),
        },
{
    let ghost rest = input@.skip(*pos as int);
    if *pos >= input.len() || input[*pos] != '{' {
        return Err(EscapeError::UnicodeMissingOpen);
    }
    let start = *pos + 1;
    let mut j = start;
    let mut all_dec = true;
    let mut big = false;
    let mut value: u64 = 0;
    assert(rest.drop_first() =~= input@.skip(start as int));
    assert(input@.subrange(start as int, start as int) =~= Seq::<char>::empty());
    while j < input.len() && hex_digit(input[j]).is_some()
        invariant
            start <= j <= input@.len(),
            start == *old(pos) + 1,
            rest == input@.skip(*old(pos) as int),
            hex_run(rest.drop_first()) == (j - start) + hex_run(input@.skip(j as int)),
            all_dec == all_decimal(input@.subrange(start as int, j as int)),
            all_dec && !big ==> value == decimal_value(input@.subrange(start as int, j as int)),
            all_dec && big ==> decimal_value(input@.subrange(start as int, j as int))
                > u32::MAX,
            !big ==> value <= u32::MAX,
        decreases input@.len() - j,
    {
        let d = input[j];
        let ghost prev = input@.subrange(start as int, j as int);
        let ghost next = input@.subrange(start as int, j + 1);
        proof {
            assert(input@.skip(j as int).drop_first() =~= input@.skip(j + 1));
            assert(next =~= prev.push(d));
            lemma_decimal_value_push(prev, d);
            if all_dec && '0' <= d <= '9' {
                assert(all_decimal(next)) by {
                    assert forall|i: int| 0 <= i < next.len() implies #[trigger] is_decimal(
                        next[i],
                    ) by {
                        if i < prev.len() {
                            assert(next[i] == prev[i]);
                        }
                    }
                }
            }
            if !('0' <= d <= '9') {
                assert(!is_decimal(next[next.len() - 1]));
            }
            if !all_dec {
                assert(!all_decimal(next)) by {
                    let w = choose|i: int| 0 <= i < prev.len() && !is_decimal(prev[i]);
                    assert(next[w] == prev[w]);
                }
            }
        }
        if '0' <= d && d <= '9' {
            if !big {
                value = value * 10 + (d as u64 - '0' as u64);
                if value > 0xFFFF_FFFF {
                    big = true;
                }
            }
        } else {
            all_dec = false;
        }
        j = j + 1;
    }
    let ghost digits = input@.subrange(start as int, j as int);
    assert(hex_run(input@.skip(j as int)) == 0) by {
        if j < input@.len() {
            assert(input@.skip(j as int)[0] == input@[j as int]);
        }
    }
    assert(rest.subrange(1, 1 + (j - start)) =~= digits);
    if j >= input.len() || input[j] != '}' {
        proof {
            if j < input@.len() {
                assert(rest[1 + (j - start)] == input@[j as int]);
            }
        }
        return Err(EscapeError::UnicodeMissingClose);
    }
    assert(rest[1 + (j - start)] == input@[j as int]);
    if j == start || !all_dec || big {
        return Err(EscapeError::UnicodeInvalidNumber);
    }
    if value >= 0x8000_0000 {
        return Err(EscapeError::UnicodeTooLarge);
    }
    let num = value as u32;
    // Encode num using utf-8, in the old, 6-byte max length encoding
    if num < 0x80 {
        out.push(num as u8);
    } else if num < 0x800 {
        out.push(0b1100_0000 | ((num >> 6) as u8));
        out.push(0b1000_0000 | ((num & 0b11_1111) as u8));
    } else if num < 0x1_0000 {
        out.push(0b1110_0000 | ((num >> 12) as u8));
        out.push(0b1000_0000 | (((num >> 6) & 0b11_1111) as u8));
        out.push(0b1000_0000 | ((num & 0b11_1111) as u8));
    } else if num < 0x20_0000 {
        out.push(0b1111_0000 | ((num >> 18) as u8));
        out.push(0b1000_0000 | (((num >> 12) & 0b11_1111) as u8));
        out.push(0b1000_0000 | (((num >> 6) & 0b11_1111) as u8));
        out.push(0b1000_0000 | ((num & 0b11_1111) as u8));
    } else if num < 0x400_0000 {
        out.push(0b1111_1000 | ((num >> 24) as u8));
        out.push(0b1000_0000 | (((num >> 18) & 0b11_1111) as u8));
        out.push(0b1000_0000 | (((num >> 12) & 0b11_1111) as u8));
        out.push(0b1000_0000 | (((num >> 6) & 0b11_1111) as u8));
        out.push(0b1000_0000 | ((num & 0b11_1111) as u8));
    } else {
        out.push(0b1111_1100 | ((num >> 30) as u8));
        out.push(0b1000_0000 | (((num >> 24) & 0b11_1111) as u8));
        out.push(0b1000_0000 | (((num >> 18) & 0b11_1111) as u8));
        out.push(0b1000_0000 | (((num >> 12) & 0b11_1111) as u8));
        out.push(0b1000_0000 | (((num >> 6) & 0b11_1111) as u8));
        out.push(0b1000_0000 | ((num & 0b11_1111) as u8));
    }
    *pos = j + 1;
    Ok(())
}

} // verus!

verus! {

/// For every Unicode scalar value, the 6 byte scheme used by `\u{...}`
/// escapes writes exactly the standard UTF-8 encoding.
pub proof fn lemma_legacy_utf8_is_utf8(v: u32)
    requires
        vstd::utf8::is_scalar(v),
    ensures
        legacy_utf8(v) == vstd::utf8::encode_scalar(v),
{
    assert(v < 0x80 ==> (v as u8) == ((v & 0x7F) as u8)) by (bit_vector);
    assert(0x80 <= v < 0x800 ==> (0xC0u8 | ((v >> 6) as u8)) == (0xC0u8 | ((v >> 6) & 0x1F) as u8))
        by (bit_vector);
    assert(0x800 <= v < 0x1_0000 ==> (0xE0u8 | ((v >> 12) as u8)) == (0xE0u8 | ((v >> 12) & 0x0F)
        as u8)) by (bit_vector);
    assert(0x1_0000 <= v < 0x11_0000 ==> (0xF0u8 | ((v >> 18) as u8)) == (0xF0u8 | ((v >> 18)
        & 0x7) as u8)) by (bit_vector);
    assert(legacy_utf8(v) =~= vstd::utf8::encode_scalar(v));
}

/// A string literal without backslashes unescapes to its UTF-8 encoding.
pub proof fn lemma_unescape_plain(s: Seq<char>)
    requires
        !s.contains('\\'),
    ensures
        unescape(s) == Ok::<Seq<u8>, EscapeError>(vstd::utf8::encode_utf8(s)),
    decreases s.len(),
{
    if s.len() > 0 {
        assert(s[0] != '\\') by {
            assert(s.contains(s[0]));
        }
        assert(!s.drop_first().contains('\\')) by {
            if s.drop_first().contains('\\') {
                let i = choose|i: int| 0 <= i < s.drop_first().len() && s.drop_first()[i] == '\\';
                assert(s[i + 1] == '\\');
            }
        }
        lemma_unescape_plain(s.drop_first());
        reveal_with_fuel(vstd::utf8::encode_utf8, 2);
        assert(seq![s[0]].drop_first() =~= Seq::<char>::empty());
        assert(vstd::utf8::encode_utf8(seq![s[0]]) + vstd::utf8::encode_utf8(s.drop_first())
            =~= vstd::utf8::encode_utf8(s));
    } else {
        assert(vstd::utf8::encode_utf8(s) =~= Seq::<u8>::empty());
    }
}

} // verus!
