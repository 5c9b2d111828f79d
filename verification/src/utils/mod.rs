//! Helpers shared by the passes: printing of trees and byte strings, and
//! the sizes of the trees.

pub mod bstr;
pub mod size_of;
pub mod tree_print;

use vstd::prelude::*;

use crate::utils::size_of::Size;

verus! {

/// A piece of printed output.  Sizes and floats are rendered where the
/// output is written, as their text depends on floating point formatting.
#[derive(Debug, Clone, Copy, PartialEq, Eq, Structural)]
pub enum Piece {
    /// A character of text
    Char(char),
    /// A byte size, to be written after a space as a human readable size in
    /// angle brackets: ` <1.5 KiB>`
    ByteSize(Size),
    /// A character of a float literal; the characters of a literal stand
    /// together, and are written as the value that the literal denotes
    Float(char),
}

/// The piece of a character
pub open spec fn piece_of(c: char) -> Piece {
    Piece::Char(c)
}

/// The piece of a character of a float literal
pub open spec fn float_piece_of(c: char) -> Piece {
    Piece::Float(c)
}

/// The pieces of a float literal
pub open spec fn float_pieces(s: Seq<char>) -> Seq<Piece>
    decreases s.len(),
{
    if s.len() == 0 {
        Seq::empty()
    } else {
        float_pieces(s.drop_last()).push(float_piece_of(s.last()))
    }
}

/// The pieces of a float literal have no size
pub proof fn lemma_visible_float(s: Seq<char>)
    ensures
        visible(float_pieces(s)) == float_pieces(s),
    decreases s.len(),
{
    if s.len() > 0 {
        lemma_visible_float(s.drop_last());
        let t = float_pieces(s.drop_last());
        lemma_visible_add(t, seq![float_piece_of(s.last())]);
        reveal_with_fuel(Seq::filter, 2);
        assert(seq![float_piece_of(s.last())].drop_last() =~= Seq::<Piece>::empty());
        assert(visible(seq![float_piece_of(s.last())]) =~= seq![float_piece_of(s.last())]);
        assert(t.push(float_piece_of(s.last())) =~= t + seq![float_piece_of(s.last())]);
    } else {
        assert(visible(Seq::<Piece>::empty()) =~= Seq::<Piece>::empty());
    }
}

/// Append the pieces of a float literal
pub fn push_float(out: &mut Vec<Piece>, s: &[char])
    ensures
        final(out)@ == old(out)@ + float_pieces(s@),
{
    let mut i: usize = 0;
    let ghost start = out@;
    assert(s@.take(0) =~= Seq::<char>::empty());
    assert(start + float_pieces(s@.take(0)) =~= start);
    while i < s.len()
        invariant
            i <= s@.len(),
            out@ == start + float_pieces(s@.take(i as int)),
        decreases s@.len() - i,
    {
        out.push(Piece::Float(s[i]));
        proof {
            assert(s@.take(i + 1).drop_last() =~= s@.take(i as int));
        }
        i = i + 1;
        assert(out@ =~= start + float_pieces(s@.take(i as int)));
    }
    assert(s@.take(i as int) =~= s@);
}

/// The pieces of a text
pub open spec fn text_pieces(s: Seq<char>) -> Seq<Piece>
    decreases s.len(),
{
    if s.len() == 0 {
        Seq::empty()
    } else {
        text_pieces(s.drop_last()).push(piece_of(s.last()))
    }
}

/// The pieces of a text have its length, each the character at its place
pub proof fn lemma_text(s: Seq<char>)
    ensures
        text_pieces(s).len() == s.len(),
        forall|i: int| 0 <= i < s.len() ==> #[trigger] text_pieces(s)[i] == Piece::Char(s[i]),
    decreases s.len(),
{
    if s.len() > 0 {
        lemma_text(s.drop_last());
    }
}

/// The pieces of two texts one after the other
pub proof fn lemma_text_add(a: Seq<char>, b: Seq<char>)
    ensures
        text_pieces(a + b) == text_pieces(a) + text_pieces(b),
{
    lemma_text(a);
    lemma_text(b);
    lemma_text(a + b);
    assert(text_pieces(a + b) =~= text_pieces(a) + text_pieces(b));
}

/// The pieces without the byte sizes, which depend on the capacities that
/// allocators gave
pub open spec fn visible(ps: Seq<Piece>) -> Seq<Piece> {
    ps.filter(shown())
}

/// Whether a piece is other than a byte size
pub open spec fn shown() -> spec_fn(Piece) -> bool {
    |p: Piece| !(p is ByteSize)
}

/// Leaving out sizes of pieces one after the other
pub proof fn lemma_visible_add(a: Seq<Piece>, b: Seq<Piece>)
    ensures
        visible(a + b) == visible(a) + visible(b),
{
    Seq::filter_distributes_over_add(a, b, shown());
}

/// A text has no sizes
pub proof fn lemma_visible_text(s: Seq<char>)
    ensures
        visible(text_pieces(s)) == text_pieces(s),
    decreases s.len(),
{
    if s.len() > 0 {
        lemma_visible_text(s.drop_last());
        let t = text_pieces(s.drop_last());
        lemma_visible_add(t, seq![piece_of(s.last())]);
        reveal_with_fuel(Seq::filter, 2);
        assert(seq![piece_of(s.last())].drop_last() =~= Seq::<Piece>::empty());
        assert(visible(seq![piece_of(s.last())]) =~= seq![piece_of(s.last())]);
        assert(t.push(piece_of(s.last())) =~= t + seq![piece_of(s.last())]);
    } else {
        assert(visible(Seq::<Piece>::empty()) =~= Seq::<Piece>::empty());
    }
}

/// A size is not visible
pub proof fn lemma_visible_size(n: usize)
    ensures
        visible(seq![Piece::ByteSize(Size(n))]) == Seq::<Piece>::empty(),
{
    reveal_with_fuel(Seq::filter, 2);
    assert(seq![Piece::ByteSize(Size(n))].drop_last() =~= Seq::<Piece>::empty());
    assert(visible(seq![Piece::ByteSize(Size(n))]) =~= Seq::<Piece>::empty());
}

/// The text of `<str as Debug>::fmt` for a string of the characters `s`
pub uninterp spec fn debug_text(s: Seq<char>) -> Seq<char>;

/// The `Debug` form of a string of the characters `s`, as `format!("{:?}")`
/// writes it (in quotes, with escapes).  Only its name is stated, as what
/// `<str as Debug>::fmt` escapes rests on the Unicode tables of std.
#[verifier::external_body]
pub(crate) fn debug_chars(s: &[char]) -> (res: Vec<char>)
    ensures
        res@ == debug_text(s@),
{
    let text: String = s.iter().collect();
    format!("{:?}", text).chars().collect()
}

/// The character of a digit, in upper or lower case when hexadecimal
pub open spec fn digit_char(d: nat, upper: bool) -> char {
    if d < 10 {
        (d + 48) as char
    } else if upper {
        (d + 55) as char
    } else {
        (d + 87) as char
    }
}

/// The digits of `n` in base `base`, without leading zeros
pub open spec fn digits(n: nat, base: nat, upper: bool) -> Seq<char>
    recommends
        base > 1,
    decreases n,
{
    if n < base || base <= 1 {
        seq![digit_char(n, upper)]
    } else {
        proof {
            vstd::arithmetic::div_mod::lemma_div_decreases(n as int, base as int);
        }
        digits(n / base, base, upper).push(digit_char(n % base, upper))
    }
}

/// The character of a digit
pub fn digit(d: u32, upper: bool) -> (c: char)
    requires
        d < 16,
    ensures
        c == digit_char(d as nat, upper),
{
    if d < 10 {
        ((d + 48) as u8) as char
    } else if upper {
        ((d + 55) as u8) as char
    } else {
        ((d + 87) as u8) as char
    }
}

/// Append the digits of `n` in base `base`
pub fn push_digits(out: &mut Vec<char>, n: u64, base: u64, upper: bool)
    requires
        base == 10 || base == 16,
    ensures
        final(out)@ == old(out)@ + digits(n as nat, base as nat, upper),
    decreases n,
{
    if n >= base {
        push_digits(out, n / base, base, upper);
    }
    let d = digit((n % base) as u32, upper);
    out.push(d);
    proof {
        if n >= base {
            assert(final(out)@ =~= old(out)@ + digits(n as nat, base as nat, upper));
        } else {
            assert(final(out)@ =~= old(out)@ + digits(n as nat, base as nat, upper));
        }
    }
}

/// Append the characters of a string slice
pub fn push_str(out: &mut Vec<char>, s: &str)
    ensures
        final(out)@ == old(out)@ + s@,
{
    let n = s.unicode_len();
    let mut i: usize = 0;
    let ghost start = out@;
    while i < n
        invariant
            n == s@.len(),
            i <= n,
            out@ == start + s@.take(i as int),
        decreases n - i,
    {
        let c = s.get_char(i);
        out.push(c);
        i = i + 1;
        assert(out@ =~= start + s@.take(i as int));
    }
    assert(s@.take(i as int) =~= s@);
}

/// Append some characters
pub fn push_chars(out: &mut Vec<char>, s: &[char])
    ensures
        final(out)@ == old(out)@ + s@,
{
    let mut i: usize = 0;
    let ghost start = out@;
    while i < s.len()
        invariant
            i <= s@.len(),
            out@ == start + s@.take(i as int),
        decreases s@.len() - i,
    {
        out.push(s[i]);
        i = i + 1;
        assert(out@ =~= start + s@.take(i as int));
    }
    assert(s@.take(i as int) =~= s@);
}

/// Append the pieces of a text
pub fn push_text(out: &mut Vec<Piece>, s: &[char])
    ensures
        final(out)@ == old(out)@ + text_pieces(s@),
{
    let mut i: usize = 0;
    let ghost start = out@;
    assert(s@.take(0) =~= Seq::<char>::empty());
    assert(start + text_pieces(s@.take(0)) =~= start);
    while i < s.len()
        invariant
            i <= s@.len(),
            out@ == start + text_pieces(s@.take(i as int)),
        decreases s@.len() - i,
    {
        out.push(Piece::Char(s[i]));
        proof {
            assert(s@.take(i + 1).drop_last() =~= s@.take(i as int));
        }
        i = i + 1;
        assert(out@ =~= start + text_pieces(s@.take(i as int)));
    }
    assert(s@.take(i as int) =~= s@);
}

/// Append a character to a string: `String::push`.
#[verifier::external_body]
fn string_push(s: &mut String, c: char)
    ensures
        final(s)@ == old(s)@.push(c),
{
    s.push(c);
}

/// A string of some characters
pub fn chars_to_string(s: &[char]) -> (res: String)
    ensures
        res@ == s@,
{
    let mut res = String::new();
    let mut i: usize = 0;
    while i < s.len()
        invariant
            i <= s@.len(),
            res@ == s@.take(i as int),
        decreases s@.len() - i,
    {
        string_push(&mut res, s[i]);
        i = i + 1;
        assert(res@ =~= s@.take(i as int));
    }
    assert(s@.take(i as int) =~= s@);
    res
}

} // verus!
