//! Generic tree printing functions, used for the specialised tree printers in
//! each individual pass.

use vstd::prelude::*;

use crate::utils::size_of::{sat, Size, SizeOf};
use crate::utils::{
    digits, float_pieces, lemma_text_add, lemma_visible_add, lemma_visible_float,
    lemma_visible_size, lemma_visible_text, push_chars, push_digits, push_float, push_str,
    push_text, text_pieces, visible, Piece,
};

verus! {

/// Data required for printing a tree
#[derive(Debug)]
pub struct TreeCtx {
    top_level: bool,
    top_size: usize,
    prefix: Vec<char>,
    child_prefix: Vec<char>,
    name: Vec<char>,
}

/// The text of a node count: `[n]`
pub open spec fn count_text(len: Option<usize>) -> Seq<char> {
    match len {
        Some(n) => seq!['['] + digits(n as nat, 10, false) + seq![']'],
        None => Seq::empty(),
    }
}

/// Whether a node of `size` bytes shows its size: at the root, and where it
/// takes more than a fifth of the whole tree.
pub open spec fn shows_size(top_level: bool, top_size: usize, size: usize) -> bool {
    top_level || size * 5 > top_size
}

/// Where a node is printed: the text before its line, the text before the
/// lines of its children, and its name
pub type Frame = (Seq<char>, Seq<char>, Seq<char>);

/// The frame of a child that is not the last
pub open spec fn child_frame(f: Frame) -> Frame {
    (f.1 + seq!['|', '-', ' '], f.1 + seq!['|', ' ', ' '], Seq::empty())
}

/// The frame of the last child
pub open spec fn last_frame(f: Frame) -> Frame {
    (f.1 + seq!['`', '-', ' '], f.1 + seq![' ', ' ', ' '], Seq::empty())
}

/// The frame of a child, the last one or not
pub open spec fn nth_frame(f: Frame, is_last: bool) -> Frame {
    if is_last {
        last_frame(f)
    } else {
        child_frame(f)
    }
}

/// The frame with `name` added to the name
pub open spec fn named(f: Frame, name: Seq<char>) -> Frame {
    (f.0, f.1, if f.2.len() == 0 {
        name
    } else {
        f.2 + seq![':', ' '] + name
    })
}

/// The text of the line of a node, without its size
pub open spec fn line_of(f: Frame, value: Seq<char>, len: Option<usize>) -> Seq<Piece> {
    text_pieces(
        f.0 + (if f.2.len() == 0 {
            Seq::empty()
        } else {
            f.2 + seq![':', ' ']
        }) + value + count_text(len) + seq!['\n'],
    )
}

/// The text of the line of a node whose description ends with a float
/// literal, without its size
pub open spec fn float_line(f: Frame, value: Seq<char>, float: Seq<char>) -> Seq<Piece> {
    text_pieces(
        f.0 + (if f.2.len() == 0 {
            Seq::empty()
        } else {
            f.2 + seq![':', ' ']
        }) + value,
    ) + float_pieces(float) + text_pieces(seq!['\n'])
}

/// The count of a list and one more element when `extra` holds, saturating
pub open spec fn count_with(n: nat, extra: bool) -> usize {
    if !extra {
        n as usize
    } else if n + 1 > usize::MAX {
        usize::MAX
    } else {
        (n + 1) as usize
    }
}

impl TreeCtx {
    /// Where this node is printed
    pub open spec fn frame(&self) -> Frame {
        (self.line_prefix(), self.nested_prefix(), self.label())
    }

    /// Whether this is the root of the tree
    pub closed spec fn top(&self) -> bool {
        self.top_level
    }

    /// Size of the whole tree
    pub closed spec fn total(&self) -> usize {
        self.top_size
    }

    /// Text before the line of this node
    pub closed spec fn line_prefix(&self) -> Seq<char> {
        self.prefix@
    }

    /// Text before the lines of the children of this node
    pub closed spec fn nested_prefix(&self) -> Seq<char> {
        self.child_prefix@
    }

    /// Name of this node
    pub closed spec fn label(&self) -> Seq<char> {
        self.name@
    }

    /// The text of the line of this node, before its size
    pub open spec fn line_text(&self, value: Seq<char>, len: Option<usize>) -> Seq<char> {
        self.line_prefix() + (if self.label().len() == 0 {
            Seq::empty()
        } else {
            self.label() + seq![':', ' ']
        }) + value + count_text(len)
    }

    /// The pieces of the line of this node, for a node of `size` bytes
    pub open spec fn line(&self, value: Seq<char>, len: Option<usize>, size: usize) -> Seq<Piece> {
        text_pieces(self.line_text(value, len)) + (if shows_size(self.top(), self.total(), size) {
            seq![Piece::ByteSize(Size(size))]
        } else {
            Seq::empty()
        }) + text_pieces(seq!['\n'])
    }

    /// Without its size, the line of a node is its text and a newline
    pub proof fn lemma_visible_line(&self, value: Seq<char>, len: Option<usize>, size: usize)
        ensures
            visible(self.line(value, len, size)) == text_pieces(
                self.line_text(value, len) + seq!['\n'],
            ),
    {
        let t = text_pieces(self.line_text(value, len));
        let n = text_pieces(seq!['\n']);
        let mid = if shows_size(self.top(), self.total(), size) {
            seq![Piece::ByteSize(Size(size))]
        } else {
            Seq::empty()
        };
        lemma_visible_add(t + mid, n);
        lemma_visible_add(t, mid);
        lemma_visible_text(self.line_text(value, len));
        lemma_visible_text(seq!['\n']);
        lemma_visible_size(size);
        assert(visible(Seq::<Piece>::empty()) =~= Seq::<Piece>::empty());
        lemma_text_add(self.line_text(value, len), seq!['\n']);
        assert(t + Seq::<Piece>::empty() =~= t);
    }

    /// Create a new tree printer, at the root level.  The object passed is
    /// used for the size of the whole tree.
    pub fn new<S: SizeOf>(n: S) -> (res: Self)
        ensures
            res.top(),
            res.line_prefix().len() == 0,
            res.nested_prefix().len() == 0,
            res.label().len() == 0,
    {
        Self {
            top_level: true,
            top_size: n.size(),
            prefix: Vec::new(),
            child_prefix: Vec::new(),
            name: Vec::new(),
        }
    }

    /// Create a tree printer for a non-last-child tree node
    pub fn child(&self) -> (res: Self)
        ensures
            !res.top(),
            res.total() == self.total(),
            res.line_prefix() == self.nested_prefix() + seq!['|', '-', ' '],
            res.nested_prefix() == self.nested_prefix() + seq!['|', ' ', ' '],
            res.label().len() == 0,
    {
        let mut prefix = Vec::new();
        push_chars(&mut prefix, self.child_prefix.as_slice());
        let mut child_prefix = Vec::new();
        push_chars(&mut child_prefix, self.child_prefix.as_slice());
        prefix.push('|');
        prefix.push('-');
        prefix.push(' ');
        child_prefix.push('|');
        child_prefix.push(' ');
        child_prefix.push(' ');
        assert(prefix@ =~= self.child_prefix@ + seq!['|', '-', ' ']);
        assert(child_prefix@ =~= self.child_prefix@ + seq!['|', ' ', ' ']);
        Self { top_level: false, top_size: self.top_size, prefix, child_prefix, name: Vec::new() }
    }

    /// Create a tree printer for a last-child tree node
    pub fn last(&self) -> (res: Self)
        ensures
            !res.top(),
            res.total() == self.total(),
            res.line_prefix() == self.nested_prefix() + seq!['`', '-', ' '],
            res.nested_prefix() == self.nested_prefix() + seq![' ', ' ', ' '],
            res.label().len() == 0,
    {
        let mut prefix = Vec::new();
        push_chars(&mut prefix, self.child_prefix.as_slice());
        let mut child_prefix = Vec::new();
        push_chars(&mut child_prefix, self.child_prefix.as_slice());
        prefix.push('`');
        prefix.push('-');
        prefix.push(' ');
        child_prefix.push(' ');
        child_prefix.push(' ');
        child_prefix.push(' ');
        assert(prefix@ =~= self.child_prefix@ + seq!['`', '-', ' ']);
        assert(child_prefix@ =~= self.child_prefix@ + seq![' ', ' ', ' ']);
        Self { top_level: false, top_size: self.top_size, prefix, child_prefix, name: Vec::new() }
    }

    /// A copy of this printer
    pub fn duplicate(&self) -> (res: Self)
        ensures
            res.top() == self.top(),
            res.total() == self.total(),
            res.line_prefix() == self.line_prefix(),
            res.nested_prefix() == self.nested_prefix(),
            res.label() == self.label(),
    {
        let mut prefix = Vec::new();
        push_chars(&mut prefix, self.prefix.as_slice());
        let mut child_prefix = Vec::new();
        push_chars(&mut child_prefix, self.child_prefix.as_slice());
        let mut name = Vec::new();
        push_chars(&mut name, self.name.as_slice());
        Self { top_level: self.top_level, top_size: self.top_size, prefix, child_prefix, name }
    }

    /// Set the name of this tree node
    pub fn name(&mut self, name: &str)
        ensures
            final(self).top() == old(self).top(),
            final(self).total() == old(self).total(),
            final(self).line_prefix() == old(self).line_prefix(),
            final(self).nested_prefix() == old(self).nested_prefix(),
            final(self).label() == if old(self).label().len() == 0 {
                name@
            } else {
                old(self).label() + seq![':', ' '] + name@
            },
    {
        if self.name.len() != 0 {
            self.name.push(':');
            self.name.push(' ');
        }
        push_str(&mut self.name, name);
        proof {
            if old(self).label().len() != 0 {
                assert(self.name@ =~= old(self).label() + seq![':', ' '] + name@);
            } else {
                assert(self.name@ =~= name@);
            }
        }
    }

    /// Format this node.
    /// `value` is the text to be written to describe the node, `len` is the
    /// number of child elements expected, `size` is the node whose byte size
    /// is shown.
    pub fn print<S: SizeOf>(&self, out: &mut Vec<Piece>, value: &str, len: Option<usize>, size: &S)
        ensures
            exists|sz: usize|
                sz >= sat(size.least_size() as int) && final(out)@ == old(out)@ + #[trigger] self.line(
                    value@,
                    len,
                    sz,
                ),
    {
        let mut v: Vec<char> = Vec::new();
        push_str(&mut v, value);
        assert(v@ =~= value@);
        self.print_chars(out, v.as_slice(), len, size);
    }

    /// Format this node, with its description given as characters
    pub fn print_chars<S: SizeOf>(
        &self,
        out: &mut Vec<Piece>,
        value: &[char],
        len: Option<usize>,
        size: &S,
    )
        ensures
            exists|sz: usize|
                sz >= sat(size.least_size() as int) && final(out)@ == old(out)@ + #[trigger] self.line(
                    value@,
                    len,
                    sz,
                ),
    {
        let sz = size.size();
        self.print_sized(out, value, len, sz);
    }

    /// Format this node, whose description is `value` followed by a float
    /// literal, for a node of `sz` bytes
    pub fn print_float_sized(
        &self,
        out: &mut Vec<Piece>,
        value: &[char],
        float: &[char],
        sz: usize,
    )
        ensures
            visible(final(out)@) == visible(old(out)@) + float_line(self.frame(), value@, float@),
    {
        let ghost start = out@;
        let mut line: Vec<char> = Vec::new();
        push_chars(&mut line, self.prefix.as_slice());
        if self.name.len() != 0 {
            push_chars(&mut line, self.name.as_slice());
            line.push(':');
            line.push(' ');
        }
        push_chars(&mut line, value);
        let ghost l = line@;
        push_text(out, line.as_slice());
        let ghost a = out@;
        push_float(out, float);
        let ghost b = out@;
        let ghost extra = if self.top_level || (sz as u128) * 5 > self.top_size as u128 {
            seq![Piece::ByteSize(Size(sz))]
        } else {
            Seq::<Piece>::empty()
        };
        if self.top_level || (sz as u128) * 5 > self.top_size as u128 {
            out.push(Piece::ByteSize(Size(sz)));
        }
        let ghost c = out@;
        out.push(Piece::Char('\n'));
        proof {
            reveal_with_fuel(text_pieces, 2);
            assert(seq!['\n'].drop_last() =~= Seq::<char>::empty());
            assert(c =~= b + extra);
            assert(out@ =~= start + text_pieces(l) + float_pieces(float@) + extra + text_pieces(
                seq!['\n'],
            ));
            lemma_visible_add(start + text_pieces(l) + float_pieces(float@) + extra, text_pieces(
                seq!['\n'],
            ));
            lemma_visible_add(start + text_pieces(l) + float_pieces(float@), extra);
            lemma_visible_add(start + text_pieces(l), float_pieces(float@));
            lemma_visible_add(start, text_pieces(l));
            lemma_visible_text(l);
            lemma_visible_text(seq!['\n']);
            lemma_visible_float(float@);
            lemma_visible_size(sz);
            assert(visible(Seq::<Piece>::empty()) =~= Seq::<Piece>::empty());
            assert(l =~= self.frame().0 + (if self.frame().2.len() == 0 {
                Seq::empty()
            } else {
                self.frame().2 + seq![':', ' ']
            }) + value@);
            assert(visible(out@) =~= visible(start) + float_line(self.frame(), value@, float@));
        }
    }

    /// Format this node, which is `sz` bytes large
    pub fn print_sized(&self, out: &mut Vec<Piece>, value: &[char], len: Option<usize>, sz: usize)
        ensures
            final(out)@ == old(out)@ + self.line(value@, len, sz),
            visible(final(out)@) == visible(old(out)@) + line_of(self.frame(), value@, len),
    {
        let mut line: Vec<char> = Vec::new();
        push_chars(&mut line, self.prefix.as_slice());
        if self.name.len() != 0 {
            push_chars(&mut line, self.name.as_slice());
            line.push(':');
            line.push(' ');
        }
        push_chars(&mut line, value);
        if let Some(n) = len {
            line.push('[');
            push_digits(&mut line, n as u64, 10, false);
            line.push(']');
        }
        proof {
            assert(line@ =~= self.line_text(value@, len));
        }
        let ghost start = out@;
        push_text(out, line.as_slice());
        let ghost after_line = out@;
        let shown = self.top_level || (sz as u128) * 5 > self.top_size as u128;
        if shown {
            out.push(Piece::ByteSize(Size(sz)));
        }
        let ghost after_size = out@;
        out.push(Piece::Char('\n'));
        proof {
            reveal_with_fuel(text_pieces, 2);
            assert(seq!['\n'].drop_last() =~= Seq::<char>::empty());
            let extra = if shows_size(self.top(), self.total(), sz) {
                seq![Piece::ByteSize(Size(sz))]
            } else {
                Seq::empty()
            };
            assert(after_size =~= after_line + extra);
            assert(out@ =~= start + self.line(value@, len, sz));
            self.lemma_visible_line(value@, len, sz);
            lemma_visible_add(start, self.line(value@, len, sz));
            assert(self.line_text(value@, len) + seq!['\n'] =~= self.frame().0 + (if self.frame().2.len() == 0 {
                Seq::empty()
            } else {
                self.frame().2 + seq![':', ' ']
            }) + value@ + count_text(len) + seq!['\n']);
        }
    }
}

} // verus!
