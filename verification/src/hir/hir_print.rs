//! Printing of HIR

use vstd::prelude::*;

use crate::hir::hir_size::{hir_size, instructions_size};
use crate::hir::hir_tree::{Hir, Instruction, InstructionId, Opcode};
use crate::name_resolution::name_tree::StringId;
use crate::utils::bstr::{bstr_ok, bstr_printable, push_bstr};
use crate::utils::size_of::Size;
use crate::utils::tree_print::shows_size;
use crate::parser::ast::{binary_name, unary_name};
use crate::utils::bstr::bstr_text;
use crate::utils::{
    digits, float_pieces, lemma_text_add, lemma_visible_add, lemma_visible_float,
    lemma_visible_size, lemma_visible_text, push_digits, push_float, push_str, push_text,
    text_pieces, visible, Piece,
};

verus! {

/// Whether the string `s` is in the table and can be printed
pub open spec fn string_printable(strings: Seq<Vec<u8>>, s: StringId) -> bool {
    s.0 < strings.len() && bstr_ok(strings[s.0 as int]@, 0)
}

/// Whether every string that the instructions use can be printed
pub open spec fn ops_printable(ops: Seq<Instruction>, strings: Seq<Vec<u8>>) -> bool
    decreases ops,
{
    if ops.len() == 0 {
        true
    } else {
        opcode_printable(ops[0].opcode, strings) && ops_printable(ops.drop_first(), strings)
    }
}

/// Whether every string that the opcode uses can be printed
pub open spec fn opcode_printable(op: Opcode, strings: Seq<Vec<u8>>) -> bool
    decreases op,
{
    match op {
        Opcode::Block { instructions } => ops_printable(instructions@, strings),
        Opcode::String(s) => string_printable(strings, s),
        _ => true,
    }
}

/// Printer for HIR
#[derive(Debug, Clone, Copy)]
pub struct HirPrint<'a> {
    hir: &'a Hir,
    depth: usize,
    top_level: bool,
    top_size: usize,
}

/// Whether every string that the instructions use can be printed
fn check_ops(ops: &Vec<Instruction>, strings: &Vec<Vec<u8>>) -> (res: bool)
    ensures
        res == ops_printable(ops@, strings@),
    decreases ops,
{
    let mut i: usize = 0;
    assert(ops@.skip(0) =~= ops@);
    while i < ops.len()
        invariant
            i <= ops@.len(),
            ops_printable(ops@, strings@) == ops_printable(ops@.skip(i as int), strings@),
        decreases ops@.len() - i,
    {
        proof {
            assert(ops@.skip(i as int)[0] == ops@[i as int]);
            assert(ops@.skip(i as int).drop_first() =~= ops@.skip(i + 1));
        }
        if !check_opcode(&ops[i].opcode, strings) {
            return false;
        }
        i = i + 1;
    }
    assert(ops@.skip(i as int) =~= Seq::<Instruction>::empty());
    true
}

/// Whether every string that the opcode uses can be printed
fn check_opcode(op: &Opcode, strings: &Vec<Vec<u8>>) -> (res: bool)
    ensures
        res == opcode_printable(*op, strings@),
    decreases op,
{
    match op {
        Opcode::Block { instructions } => check_ops(instructions, strings),
        Opcode::String(s) => {
            if (s.0 as usize) < strings.len() {
                bstr_printable(strings[s.0 as usize].as_slice())
            } else {
                false
            }
        },
        _ => true,
    }
}


/// The text of an instruction id: `%` and its number
pub open spec fn id_text(id: InstructionId) -> Seq<char> {
    seq!['%'] + digits(id.0 as nat, 10, false)
}

/// The ids of a tuple, separated by `, `
pub open spec fn ids_text(v: Seq<InstructionId>) -> Seq<char>
    decreases v.len(),
{
    if v.len() == 0 {
        Seq::empty()
    } else if v.len() == 1 {
        id_text(v[0])
    } else {
        ids_text(v.drop_last()) + seq![',', ' '] + id_text(v.last())
    }
}

/// The ids of a tuple print in order: the ids of two runs of values, one
/// after the other, print as the first run's ids, `, `, then the second's.
pub proof fn law_ids_text_concat(a: Seq<InstructionId>, b: Seq<InstructionId>)
    requires
        a.len() > 0,
        b.len() > 0,
    ensures
        ids_text(a + b) == ids_text(a) + seq![',', ' '] + ids_text(b),
    decreases b.len(),
{
    if b.len() == 1 {
        assert((a + b).drop_last() =~= a);
        assert((a + b).last() == b[0]);
    } else {
        assert((a + b).drop_last() =~= a + b.drop_last());
        assert((a + b).last() == b.last());
        law_ids_text_concat(a, b.drop_last());
        assert(ids_text(a + b) =~= ids_text(a) + seq![',', ' '] + (ids_text(b.drop_last()) + seq![
            ',',
            ' ',
        ] + id_text(b.last())));
    }
}

/// The indentation of a line at `depth`: four spaces per level
pub open spec fn indent_text(depth: nat) -> Seq<char>
    decreases depth,
{
    if depth == 0 {
        Seq::empty()
    } else {
        indent_text((depth - 1) as nat) + seq![' ', ' ', ' ', ' ']
    }
}

/// One more level of nesting, saturating
pub open spec fn deeper(depth: usize) -> usize {
    if depth == usize::MAX {
        depth
    } else {
        (depth + 1) as usize
    }
}

/// The printed block of instructions at `depth`, after its name, without
/// its size
pub open spec fn block_text(depth: usize, ops: Seq<Instruction>, strings: Seq<Vec<u8>>) -> Seq<
    Piece,
>
    decreases ops, ops.len() + 1,
{
    text_pieces(seq!['['] + digits(ops.len(), 10, false) + seq![']', ' ', '{']) + if ops.len()
        == 0 {
        text_pieces(seq![' ', '}'])
    } else {
        text_pieces(seq!['\n']) + items_text(deeper(depth), ops, strings, 0) + text_pieces(
            indent_text(depth as nat) + seq!['}'],
        )
    }
}

/// The printed instructions from the `i`th on, each on a line of its own
pub open spec fn items_text(depth: usize, ops: Seq<Instruction>, strings: Seq<Vec<u8>>, i: int) -> Seq<
    Piece,
>
    decreases ops, ops.len() - i,
{
    if i < 0 || i >= ops.len() {
        Seq::empty()
    } else {
        instruction_text(depth, ops[i], strings) + text_pieces(seq!['\n']) + items_text(
            depth,
            ops,
            strings,
            i + 1,
        )
    }
}

/// The printed instruction: its indentation, `%id = `, and its opcode
pub open spec fn instruction_text(depth: usize, op: Instruction, strings: Seq<Vec<u8>>) -> Seq<
    Piece,
>
    decreases op, 0nat,
{
    text_pieces(indent_text(depth as nat)) + text_pieces(id_text(op.id) + seq![' ', '=', ' '])
        + opcode_text(depth, op.opcode, strings)
}

/// The printed opcode
pub open spec fn opcode_text(depth: usize, op: Opcode, strings: Seq<Vec<u8>>) -> Seq<Piece>
    decreases op, 0nat,
{
    match op {
        Opcode::Block { instructions } => text_pieces("block"@) + block_text(
            depth,
            instructions@,
            strings,
        ),
        Opcode::Return { value: Some(id) } => text_pieces("return "@ + id_text(id)),
        Opcode::Return { value: None } => text_pieces("return"@),
        Opcode::Tuple { values } => text_pieces("tuple ["@ + ids_text(values@) + seq![']']),
        Opcode::Nil => text_pieces("nil"@),
        Opcode::Bool(b) => text_pieces(
            "bool "@ + if b {
                "true"@
            } else {
                "false"@
            },
        ),
        Opcode::Float(f) => text_pieces("float "@) + float_pieces(f@),
        Opcode::Int(i) => text_pieces("int "@ + digits(i as nat, 10, false)),
        Opcode::String(s) => text_pieces(
            "string \""@ + bstr_text(strings[s.0 as int]@, 0) + seq!['"'],
        ),
        Opcode::Binary { left, op, right } => text_pieces(
            binary_name(op) + seq![' '] + id_text(left) + seq![' '] + id_text(right),
        ),
        Opcode::Unary(op, e) => text_pieces(unary_name(op) + seq![' '] + id_text(e)),
    }
}

/// A return prints the id of the value it returns, and a unary instruction
/// the name of its operator, then the id of its operand.
pub proof fn law_operand_ids(
    depth: usize,
    value: InstructionId,
    uop: crate::parser::ast::UnaryOperator,
    strings: Seq<Vec<u8>>,
)
    ensures
        opcode_text(depth, Opcode::Return { value: Some(value) }, strings) == text_pieces(
            "return "@ + seq!['%'] + digits(value.0 as nat, 10, false),
        ),
        opcode_text(depth, Opcode::Unary(uop, value), strings) == text_pieces(
            unary_name(uop) + seq![' ', '%'] + digits(value.0 as nat, 10, false),
        ),
{
    assert("return "@ + id_text(value) =~= "return "@ + seq!['%'] + digits(value.0 as nat, 10, false));
    assert(unary_name(uop) + seq![' '] + id_text(value) =~= unary_name(uop) + seq![' ', '%'] + digits(
        value.0 as nat,
        10,
        false,
    ));
}

/// A binary instruction prints as the name of its operator, then the id of
/// its left operand, then the id of its right operand, separated by spaces:
/// `%2 = Minus %0 %1` computes `%0 - %1`.
pub proof fn law_binary_operands_in_order(
    depth: usize,
    left: InstructionId,
    op: crate::parser::ast::BinaryOperator,
    right: InstructionId,
    strings: Seq<Vec<u8>>,
)
    ensures
        opcode_text(depth, Opcode::Binary { left, op, right }, strings) == text_pieces(
            binary_name(op) + seq![' ', '%'] + digits(left.0 as nat, 10, false) + seq![' ', '%']
                + digits(right.0 as nat, 10, false),
        ),
{
    assert(binary_name(op) + seq![' '] + id_text(left) + seq![' '] + id_text(right) =~= binary_name(
        op,
    ) + seq![' ', '%'] + digits(left.0 as nat, 10, false) + seq![' ', '%'] + digits(
        right.0 as nat,
        10,
        false,
    ));
}

impl<'a> HirPrint<'a> {
    /// The HIR being printed
    pub closed spec fn source(&self) -> &'a Hir {
        self.hir
    }

    /// The nesting depth of the lines printed
    pub closed spec fn depth(&self) -> usize {
        self.depth
    }

    /// Create a printer of some HIR
    pub fn new(hir: &'a Hir) -> (res: Self)
        ensures
            res.source() == hir,
            res.depth() == 0,
    {
        HirPrint { hir, depth: 0, top_level: true, top_size: hir_size(hir) }
    }

    /// Whether the HIR can be printed: every string it uses is in its
    /// table, and can be printed
    pub fn printable(hir: &Hir) -> (res: bool)
        ensures
            res == ops_printable(hir.instructions@, hir.strings@),
    {
        check_ops(&hir.instructions, &hir.strings)
    }

    /// The printed HIR: `Hir`, then its instructions as a block
    pub fn pieces(&self) -> (out: Vec<Piece>)
        requires
            ops_printable(self.source().instructions@, self.source().strings@),
        ensures
            visible(out@) == text_pieces("Hir"@) + block_text(
                self.depth(),
                self.source().instructions@,
                self.source().strings@,
            ),
    {
        let mut out: Vec<Piece> = Vec::new();
        let mut name: Vec<char> = Vec::new();
        push_str(&mut name, "Hir");
        push_visible_text(&mut out, name.as_slice());
        proof {
            assert(visible(Seq::<Piece>::empty()) =~= Seq::<Piece>::empty());
            assert(name@ =~= "Hir"@);
        }
        let size = hir_size(self.hir);
        self.block(&mut out, &self.hir.instructions, size);
        out
    }

    /// Print a single instruction
    fn instruction(&self, out: &mut Vec<Piece>, op: &Instruction)
        requires
            opcode_printable(op.opcode, self.source().strings@),
        ensures
            visible(final(out)@) == visible(old(out)@) + instruction_text(
                self.depth(),
                *op,
                self.source().strings@,
            ),
        decreases op, 1nat,
    {
        self.indent(out);
        let mut line: Vec<char> = Vec::new();
        push_id(&mut line, op.id);
        push_str(&mut line, " = ");
        proof {
            reveal_strlit(" = ");
        }
        push_visible_text(out, line.as_slice());
        self.opcode(out, &op.opcode);
        proof {
            assert(line@ =~= id_text(op.id) + seq![' ', '=', ' ']);
            assert(visible(out@) =~= visible(old(out)@) + instruction_text(
                self.depth(),
                *op,
                self.source().strings@,
            ));
        }
    }

    /// Print a single opcode
    fn opcode(&self, out: &mut Vec<Piece>, op: &Opcode)
        requires
            opcode_printable(*op, self.source().strings@),
        ensures
            visible(final(out)@) == visible(old(out)@) + opcode_text(
                self.depth(),
                *op,
                self.source().strings@,
            ),
        decreases op, 0nat,
    {
        let mut line: Vec<char> = Vec::new();
        match op {
            Opcode::Block { instructions } => {
                push_str(&mut line, "block");
                push_visible_text(out, line.as_slice());
                let size = instructions_size(instructions);
                self.block(out, instructions, size);
                return ;
            },
            Opcode::Return { value: Some(id) } => {
                push_str(&mut line, "return ");
                push_id(&mut line, *id);
            },
            Opcode::Return { value: None } => {
                push_str(&mut line, "return");
            },
            Opcode::Tuple { values } => {
                push_str(&mut line, "tuple [");
                let ghost start = line@;
                let mut i: usize = 0;
                while i < values.len()
                    invariant
                        i <= values@.len(),
                        line@ == start + ids_text(values@.take(i as int)),
                    decreases values@.len() - i,
                {
                    let ghost before = line@;
                    if i > 0 {
                        push_str(&mut line, ", ");
                        proof {
                            reveal_strlit(", ");
                        }
                    }
                    push_id(&mut line, values[i]);
                    proof {
                        let t = values@.take(i + 1);
                        assert(t.drop_last() =~= values@.take(i as int));
                        if i == 0 {
                            assert(values@.take(0) =~= Seq::<InstructionId>::empty());
                            assert(line@ =~= start + ids_text(t));
                        } else {
                            assert(line@ =~= start + ids_text(t));
                        }
                    }
                    i = i + 1;
                }
                line.push(']');
                proof {
                    assert(values@.take(i as int) =~= values@);
                }
            },
            Opcode::Nil => {
                push_str(&mut line, "nil");
            },
            Opcode::Bool(b) => {
                push_str(&mut line, "bool ");
                if *b {
                    push_str(&mut line, "true");
                } else {
                    push_str(&mut line, "false");
                }
            },
            Opcode::Float(f) => {
                push_str(&mut line, "float ");
                push_visible_text(out, line.as_slice());
                let ghost mid = out@;
                push_float(out, f.as_slice());
                proof {
                    lemma_visible_add(mid, float_pieces(f@));
                    lemma_visible_float(f@);
                }
                return ;
            },
            Opcode::Int(i) => {
                push_str(&mut line, "int ");
                push_digits(&mut line, *i, 10, false);
            },
            Opcode::String(s) => {
                push_str(&mut line, "string \"");
                push_bstr(&mut line, self.hir.strings[s.0 as usize].as_slice());
                line.push('"');
            },
            Opcode::Binary { left, op, right } => {
                push_str(&mut line, op.name());
                line.push(' ');
                push_id(&mut line, *left);
                line.push(' ');
                push_id(&mut line, *right);
            },
            Opcode::Unary(op, expr) => {
                push_str(&mut line, op.name());
                line.push(' ');
                push_id(&mut line, *expr);
            },
        }
        push_visible_text(out, line.as_slice());
        proof {
            assert(text_pieces(line@) == opcode_text(self.depth(), *op, self.source().strings@))
                by {
                match op {
                    Opcode::Tuple { values } => {
                        assert(line@ =~= "tuple ["@ + ids_text(values@) + seq![']']);
                    },
                    Opcode::String(s) => {
                        assert(line@ =~= "string \""@ + bstr_text(
                            self.source().strings@[s.0 as int]@,
                            0,
                        ) + seq!['"']);
                    },
                    Opcode::Binary { left, op, right } => {
                        assert(line@ =~= binary_name(*op) + seq![' '] + id_text(*left) + seq![' ']
                            + id_text(*right));
                    },
                    Opcode::Unary(op, e) => {
                        assert(line@ =~= unary_name(*op) + seq![' '] + id_text(*e));
                    },
                    Opcode::Bool(b) => {
                        assert(line@ =~= "bool "@ + if *b {
                            "true"@
                        } else {
                            "false"@
                        });
                    },
                    Opcode::Int(i) => {
                        assert(line@ =~= "int "@ + digits(*i as nat, 10, false));
                    },
                    Opcode::Return { value: Some(id) } => {
                        assert(line@ =~= "return "@ + id_text(*id));
                    },
                    _ => {},
                }
            }
        }
    }

    /// Print the count and size of a block, and its opening brace
    fn block_header(&self, out: &mut Vec<Piece>, len: usize, size: usize)
        ensures
            visible(final(out)@) == visible(old(out)@) + text_pieces(
                seq!['['] + digits(len as nat, 10, false) + seq![']', ' ', '{'],
            ),
    {
        let mut line: Vec<char> = Vec::new();
        line.push('[');
        push_digits(&mut line, len as u64, 10, false);
        line.push(']');
        push_visible_text(out, line.as_slice());
        let ghost a = out@;
        if self.top_level || (size as u128) * 5 > self.top_size as u128 {
            out.push(Piece::ByteSize(Size(size)));
            proof {
                lemma_visible_add(a, seq![Piece::ByteSize(Size(size))]);
                lemma_visible_size(size);
                assert(out@ =~= a + seq![Piece::ByteSize(Size(size))]);
                assert(visible(a) + Seq::<Piece>::empty() =~= visible(a));
            }
        }
        let mut open: Vec<char> = Vec::new();
        open.push(' ');
        open.push('{');
        push_visible_text(out, open.as_slice());
        proof {
            lemma_text_add(line@, open@);
            assert(line@ + open@ =~= seq!['['] + digits(len as nat, 10, false) + seq![
                ']',
                ' ',
                '{',
            ]);
        }
    }

    /// Print instructions, each on a line of its own
    fn block_items(&self, out: &mut Vec<Piece>, ops: &Vec<Instruction>)
        requires
            ops_printable(ops@, self.source().strings@),
        ensures
            visible(final(out)@) == visible(old(out)@) + items_text(
                self.depth(),
                ops@,
                self.source().strings@,
                0,
            ),
        decreases ops, 1nat,
    {
        let mut newline: Vec<char> = Vec::new();
        newline.push('\n');
        assert(newline@ =~= seq!['\n']);
        let ghost first = out@;
        let mut i: usize = 0;
        proof {
            assert(ops@.skip(0) =~= ops@);
        }
        while i < ops.len()
            invariant
                i <= ops@.len(),
                newline@ == seq!['\n'],
                ops_printable(ops@.skip(i as int), self.source().strings@),
                visible(out@) + items_text(self.depth(), ops@, self.source().strings@, i as int)
                    == visible(first) + items_text(self.depth(), ops@, self.source().strings@, 0),
            decreases ops@.len() - i,
        {
            proof {
                assert(ops@.skip(i as int)[0] == ops@[i as int]);
                assert(ops@.skip(i as int).drop_first() =~= ops@.skip(i + 1));
            }
            let ghost before = out@;
            self.instruction(out, &ops[i]);
            push_visible_text(out, newline.as_slice());
            proof {
                let t = visible(out@);
                assert(t + items_text(self.depth(), ops@, self.source().strings@, i + 1)
                    =~= visible(before) + items_text(
                    self.depth(),
                    ops@,
                    self.source().strings@,
                    i as int,
                ));
            }
            i = i + 1;
        }
        proof {
            assert(visible(out@) =~= visible(first) + items_text(
                self.depth(),
                ops@,
                self.source().strings@,
                0,
            ));
        }
    }

    /// Print the contents of a block, assuming that its name has already been printed
    fn block(&self, out: &mut Vec<Piece>, ops: &Vec<Instruction>, size: usize)
        requires
            ops_printable(ops@, self.source().strings@),
        ensures
            visible(final(out)@) == visible(old(out)@) + block_text(
                self.depth(),
                ops@,
                self.source().strings@,
            ),
        decreases ops, 2nat,
    {
        let ghost v0 = visible(out@);
        let ghost head = text_pieces(
            seq!['['] + digits(ops@.len(), 10, false) + seq![']', ' ', '{'],
        );
        self.block_header(out, ops.len(), size);
        if ops.len() == 0 {
            let mut close: Vec<char> = Vec::new();
            close.push(' ');
            close.push('}');
            assert(close@ =~= seq![' ', '}']);
            push_visible_text(out, close.as_slice());
            proof {
                assert(visible(out@) =~= v0 + (head + text_pieces(seq![' ', '}'])));
            }
            return ;
        }
        let mut newline: Vec<char> = Vec::new();
        newline.push('\n');
        assert(newline@ =~= seq!['\n']);
        push_visible_text(out, newline.as_slice());
        let inner = HirPrint {
            hir: self.hir,
            depth: self.depth.saturating_add(1),
            top_level: self.top_level,
            top_size: self.top_size,
        };
        let ghost v1 = visible(out@);
        inner.block_items(out, ops);
        let ghost items = items_text(deeper(self.depth()), ops@, self.source().strings@, 0);
        let ghost v2 = visible(out@);
        self.indent(out);
        let mut close: Vec<char> = Vec::new();
        close.push('}');
        assert(close@ =~= seq!['}']);
        push_visible_text(out, close.as_slice());
        proof {
            let ind = text_pieces(indent_text(self.depth() as nat));
            let cl = text_pieces(seq!['}']);
            lemma_text_add(indent_text(self.depth() as nat), seq!['}']);
            assert(v1 == v0 + head + text_pieces(seq!['\n']));
            assert(v2 == v1 + items);
            assert(visible(out@) == v2 + ind + cl);
            assert(visible(out@) =~= v0 + (head + (text_pieces(seq!['\n']) + items + (ind + cl))));
        }
    }

    /// Print the indentation at the start of a line
    fn indent(&self, out: &mut Vec<Piece>)
        ensures
            visible(final(out)@) == visible(old(out)@) + text_pieces(indent_text(self.depth() as nat)),
    {
        let mut line: Vec<char> = Vec::new();
        let mut d: usize = 0;
        while d < self.depth
            invariant
                d <= self.depth,
                line@ == indent_text(d as nat),
            decreases self.depth - d,
        {
            line.push(' ');
            line.push(' ');
            line.push(' ');
            line.push(' ');
            d = d + 1;
            assert(line@ =~= indent_text(d as nat));
        }
        push_visible_text(out, line.as_slice());
    }
}

/// Append the pieces of a text, which has no sizes
fn push_visible_text(out: &mut Vec<Piece>, s: &[char])
    ensures
        final(out)@ == old(out)@ + text_pieces(s@),
        visible(final(out)@) == visible(old(out)@) + text_pieces(s@),
{
    push_text(out, s);
    proof {
        lemma_visible_add(old(out)@, text_pieces(s@));
        lemma_visible_text(s@);
    }
}

/// Append the text of an instruction id: `%` and its number
fn push_id(out: &mut Vec<char>, id: InstructionId)
    ensures
        final(out)@ == old(out)@ + id_text(id),
{
    out.push('%');
    push_digits(out, id.0 as u64, 10, false);
    assert(out@ =~= old(out)@ + id_text(id));
}

} // verus!
