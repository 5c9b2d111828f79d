//! Lowering of the name tree into HIR.

pub mod hir_print;
pub mod hir_size;
pub mod hir_tree;

use vstd::prelude::*;

use crate::hir::hir_tree::{Hir, Instruction, InstructionId, Opcode};
use crate::name_resolution::name_tree as nt;

verus! {

/// Whether HIR lowering handles the expression: literals, and unary and
/// binary operators over such expressions.
pub open spec fn lowerable(e: nt::Expression) -> bool
    decreases e,
{
    match e {
        nt::Expression::Nil => true,
        nt::Expression::Bool(_) => true,
        nt::Expression::Number(_) => true,
        nt::Expression::String(_) => true,
        nt::Expression::Binary { left, right, .. } => lowerable(*left) && lowerable(*right),
        nt::Expression::Unary { expr, .. } => lowerable(*expr),
        _ => false,
    }
}

/// Number of instructions that lowering an expression emits
pub open spec fn expr_len(e: nt::Expression) -> nat
    decreases e,
{
    match e {
        nt::Expression::Binary { left, right, .. } => expr_len(*left) + expr_len(*right) + 1,
        nt::Expression::Unary { expr, .. } => expr_len(*expr) + 1,
        _ => 1,
    }
}

/// `code` is the lowering of `e` when its instructions are numbered from
/// `start`: operands first, left before right, then the instruction that
/// computes `e`, whose id is the last one.
pub open spec fn expr_code(code: Seq<Instruction>, e: nt::Expression, start: int) -> bool
    decreases e,
{
    &&& code.len() == expr_len(e)
    &&& forall|i: int| 0 <= i < code.len() ==> (#[trigger] code[i]).id.0 == start + i
    &&& match e {
        nt::Expression::Nil => code[0].opcode is Nil,
        nt::Expression::Bool(b) => code[0].opcode matches Opcode::Bool(c) && c == b,
        nt::Expression::Number(nt::Number::Integer(n)) => code[0].opcode matches Opcode::Int(
            m,
        ) && m == n,
        nt::Expression::Number(nt::Number::Float(f)) => code[0].opcode matches Opcode::Float(g)
            && g@ == f@,
        nt::Expression::String(s) => code[0].opcode matches Opcode::String(t) && t == s,
        nt::Expression::Binary { left, op, right } => {
            let ll = expr_len(*left) as int;
            let lr = expr_len(*right) as int;
            &&& expr_code(code.subrange(0, ll), *left, start)
            &&& expr_code(code.subrange(ll, ll + lr), *right, start + ll)
            &&& code[ll + lr].opcode matches Opcode::Binary { left: a, op: o, right: b }
            &&& a.0 == start + ll - 1
            &&& o == op
            &&& b.0 == start + ll + lr - 1
        },
        nt::Expression::Unary { expr, op } => {
            let l = expr_len(*expr) as int;
            &&& expr_code(code.subrange(0, l), *expr, start)
            &&& code[l].opcode matches Opcode::Unary(o, a)
            &&& o == op
            &&& a.0 == start + l - 1
        },
        _ => false,
    }
}

/// Number of instructions that lowering a list of expressions emits
pub open spec fn exprs_len(es: Seq<nt::Expression>) -> nat
    decreases es.len(),
{
    if es.len() == 0 {
        0
    } else {
        expr_len(es[0]) + exprs_len(es.drop_first())
    }
}

/// `code` lowers each of `es` in turn, numbered from `start`
pub open spec fn exprs_code(code: Seq<Instruction>, es: Seq<nt::Expression>, start: int) -> bool
    decreases es.len(),
{
    if es.len() == 0 {
        code.len() == 0
    } else {
        let l = expr_len(es[0]) as int;
        &&& l <= code.len()
        &&& expr_code(code.subrange(0, l), es[0], start)
        &&& exprs_code(code.subrange(l, code.len() as int), es.drop_first(), start + l)
    }
}

/// The ids of the values of `es` when lowered in turn from `start`
pub open spec fn exprs_ids(es: Seq<nt::Expression>, start: int) -> Seq<InstructionId>
    decreases es.len(),
{
    if es.len() == 0 {
        Seq::empty()
    } else {
        let l = expr_len(es[0]) as int;
        seq![InstructionId((start + l - 1) as u32)] + exprs_ids(es.drop_first(), start + l)
    }
}

/// Whether every expression of the list can be lowered
pub open spec fn all_lowerable(es: Seq<nt::Expression>) -> bool {
    forall|i: int| 0 <= i < es.len() ==> lowerable(#[trigger] es[i])
}

/// Number of instructions that lowering a block emits
pub open spec fn block_len(b: nt::Block) -> nat {
    match b.ret_stat {
        None => 0,
        Some(r) => exprs_len(r.exprs@) + if r.exprs@.len() >= 2 {
            2nat
        } else {
            1nat
        },
    }
}

/// Whether HIR lowering handles the block: it has no statements and closes
/// no variables, what it returns can be lowered, and its instructions can
/// be numbered with `u32` ids.
pub open spec fn block_lowerable(b: nt::Block) -> bool {
    &&& b.statements@.len() == 0
    &&& b.close@.len() == 0
    &&& (b.ret_stat matches Some(r) ==> all_lowerable(r.exprs@))
    &&& block_len(b) <= u32::MAX
}

/// `code` is the lowering of the block: the returned values, then a tuple of
/// them where there are several, then the return.
pub open spec fn block_code(code: Seq<Instruction>, b: nt::Block) -> bool {
    match b.ret_stat {
        None => code.len() == 0,
        Some(r) => {
            let es = r.exprs@;
            let n = exprs_len(es) as int;
            let ids = exprs_ids(es, 0);
            &&& n <= code.len()
            &&& exprs_code(code.subrange(0, n), es, 0)
            &&& if es.len() <= 1 {
                &&& code.len() == n + 1
                &&& code[n].id.0 == n
                &&& code[n].opcode matches Opcode::Return { value }
                &&& value == if es.len() == 0 {
                    None
                } else {
                    Some(ids[0])
                }
            } else {
                &&& code.len() == n + 2
                &&& code[n].id.0 == n
                &&& code[n].opcode matches Opcode::Tuple { values }
                &&& values@ == ids
                &&& code[n + 1].id.0 == n + 1
                &&& code[n + 1].opcode matches Opcode::Return { value }
                &&& value == Some(InstructionId(n as u32))
            }
        },
    }
}

/// A lowering of one expression list, split at its first element
proof fn lemma_exprs_split(es: Seq<nt::Expression>, k: int, start: int)
    requires
        0 <= k < es.len(),
    ensures
        exprs_len(es.take(k + 1)) == exprs_len(es.take(k)) + expr_len(es[k]),
        exprs_ids(es.take(k + 1), start) == exprs_ids(es.take(k), start).push(
            InstructionId((start + exprs_len(es.take(k + 1)) - 1) as u32),
        ),
        forall|code: Seq<Instruction>, c: Seq<Instruction>|
            exprs_code(code, es.take(k), start) && expr_code(
                c,
                es[k],
                start + exprs_len(es.take(k)),
            ) ==> #[trigger] exprs_code(code + c, es.take(k + 1), start),
    decreases k,
{
    if k == 0 {
        assert(es.take(1).drop_first() =~= Seq::<nt::Expression>::empty());
        assert(es.take(0) =~= Seq::<nt::Expression>::empty());
        assert(es.take(1)[0] == es[0]);
        let l = expr_len(es[0]) as int;
        assert(exprs_ids(es.take(1).drop_first(), start + l) =~= Seq::<InstructionId>::empty());
        assert(exprs_ids(es.take(0), start) =~= Seq::<InstructionId>::empty());
        assert(exprs_ids(es.take(1), start) =~= exprs_ids(es.take(0), start).push(
            InstructionId((start + exprs_len(es.take(1)) - 1) as u32),
        ));
        assert forall|code: Seq<Instruction>, c: Seq<Instruction>|
            exprs_code(code, es.take(k), start) && expr_code(
                c,
                es[k],
                start + exprs_len(es.take(k)),
            ) implies #[trigger] exprs_code(code + c, es.take(k + 1), start) by {
            assert(code.len() == 0);
            assert(code + c =~= c);
            assert(c.subrange(0, l) =~= c);
            assert(c.subrange(l, c.len() as int) =~= Seq::<Instruction>::empty());
            assert(exprs_code(Seq::<Instruction>::empty(), es.take(1).drop_first(), start + l));
        }
    } else {
        let t = es.drop_first();
        assert(es.take(k + 1).drop_first() =~= t.take(k));
        assert(es.take(k).drop_first() =~= t.take(k - 1));
        assert(es.take(k + 1)[0] == es[0]);
        assert(es.take(k)[0] == es[0]);
        assert(t[k - 1] == es[k]);
        let l = expr_len(es[0]) as int;
        lemma_exprs_split(t, k - 1, start + l);
        let id0 = InstructionId((start + l - 1) as u32);
        let a = exprs_ids(t.take(k - 1), start + l);
        let x = InstructionId((start + l + exprs_len(t.take(k)) - 1) as u32);
        assert(seq![id0] + a.push(x) =~= (seq![id0] + a).push(x));
        assert forall|code: Seq<Instruction>, c: Seq<Instruction>|
            exprs_code(code, es.take(k), start) && expr_code(
                c,
                es[k],
                start + exprs_len(es.take(k)),
            ) implies #[trigger] exprs_code(code + c, es.take(k + 1), start) by {
            let rest = code.subrange(l, code.len() as int);
            assert(exprs_code(rest + c, t.take(k), start + l));
            assert((code + c).subrange(0, l) =~= code.subrange(0, l));
            assert((code + c).subrange(l, (code + c).len() as int) =~= rest + c);
        }
    }
}

/// The instructions of a lowered expression list are numbered in order
/// from `start`.
pub proof fn lemma_exprs_code_ids(code: Seq<Instruction>, es: Seq<nt::Expression>, start: int)
    requires
        exprs_code(code, es, start),
    ensures
        forall|i: int| 0 <= i < code.len() ==> (#[trigger] code[i]).id.0 == start + i,
    decreases es.len(),
{
    if es.len() > 0 {
        let l = expr_len(es[0]) as int;
        let rest = code.subrange(l, code.len() as int);
        lemma_exprs_code_ids(rest, es.drop_first(), start + l);
        assert forall|i: int| 0 <= i < code.len() implies (#[trigger] code[i]).id.0 == start + i by {
            if i < l {
                assert(code[i] == code.subrange(0, l)[i]);
            } else {
                assert(code[i] == rest[i - l]);
            }
        }
    }
}

/// Lowering numbers the instructions of a block by their position: the id
/// of each instruction is its index in the list.
pub proof fn lemma_block_code_ids(code: Seq<Instruction>, b: nt::Block)
    requires
        block_code(code, b),
    ensures
        forall|i: int| 0 <= i < code.len() ==> (#[trigger] code[i]).id.0 == i,
{
    if let Some(r) = b.ret_stat {
        let n = exprs_len(r.exprs@) as int;
        lemma_exprs_code_ids(code.subrange(0, n), r.exprs@, 0);
        assert forall|i: int| 0 <= i < code.len() implies (#[trigger] code[i]).id.0 == i by {
            if i < n {
                assert(code[i] == code.subrange(0, n)[i]);
            }
        }
    }
}

/// Whether each instruction of `code` reads only values of instructions
/// with smaller ids: its operands, the values of a tuple, what it returns
pub open spec fn operands_earlier(code: Seq<Instruction>) -> bool {
    forall|i: int|
        0 <= i < code.len() ==> match (#[trigger] code[i]).opcode {
            Opcode::Binary { left, right, .. } => left.0 < code[i].id.0 && right.0 < code[i].id.0,
            Opcode::Unary(_, a) => a.0 < code[i].id.0,
            Opcode::Tuple { values } => forall|j: int|
                0 <= j < values@.len() ==> (#[trigger] values@[j]).0 < code[i].id.0,
            Opcode::Return { value } => value matches Some(v) ==> v.0 < code[i].id.0,
            _ => true,
        }
}

/// A lowered expression reads only earlier values
proof fn lemma_expr_operands_earlier(code: Seq<Instruction>, e: nt::Expression, start: int)
    requires
        expr_code(code, e, start),
    ensures
        operands_earlier(code),
    decreases e,
{
    match e {
        nt::Expression::Binary { left, right, .. } => {
            let ll = expr_len(*left) as int;
            let lr = expr_len(*right) as int;
            lemma_expr_operands_earlier(code.subrange(0, ll), *left, start);
            lemma_expr_operands_earlier(code.subrange(ll, ll + lr), *right, start + ll);
            assert forall|i: int| 0 <= i < code.len() implies match (#[trigger] code[i]).opcode {
                Opcode::Binary { left, right, .. } => left.0 < code[i].id.0 && right.0
                    < code[i].id.0,
                Opcode::Unary(_, a) => a.0 < code[i].id.0,
                Opcode::Tuple { values } => forall|j: int|
                    0 <= j < values@.len() ==> (#[trigger] values@[j]).0 < code[i].id.0,
                Opcode::Return { value } => value matches Some(v) ==> v.0 < code[i].id.0,
                _ => true,
            } by {
                if i < ll {
                    assert(code[i] == code.subrange(0, ll)[i]);
                } else if i < ll + lr {
                    assert(code[i] == code.subrange(ll, ll + lr)[i - ll]);
                }
            }
        },
        nt::Expression::Unary { expr, .. } => {
            let l = expr_len(*expr) as int;
            lemma_expr_operands_earlier(code.subrange(0, l), *expr, start);
            assert forall|i: int| 0 <= i < code.len() implies match (#[trigger] code[i]).opcode {
                Opcode::Binary { left, right, .. } => left.0 < code[i].id.0 && right.0
                    < code[i].id.0,
                Opcode::Unary(_, a) => a.0 < code[i].id.0,
                Opcode::Tuple { values } => forall|j: int|
                    0 <= j < values@.len() ==> (#[trigger] values@[j]).0 < code[i].id.0,
                Opcode::Return { value } => value matches Some(v) ==> v.0 < code[i].id.0,
                _ => true,
            } by {
                if i < l {
                    assert(code[i] == code.subrange(0, l)[i]);
                }
            }
        },
        _ => {},
    }
}

/// Lowered expression lists read only earlier values, and their values come
/// before the instructions that follow them
proof fn lemma_exprs_operands_earlier(code: Seq<Instruction>, es: Seq<nt::Expression>, start: int)
    requires
        exprs_code(code, es, start),
    ensures
        operands_earlier(code),
        code.len() == exprs_len(es),
        exprs_ids(es, start).len() == es.len(),
        forall|j: int|
            0 <= j < es.len() ==> (#[trigger] exprs_ids(es, start)[j]).0 < start + exprs_len(es),
    decreases es.len(),
{
    if es.len() > 0 {
        let l = expr_len(es[0]) as int;
        let rest = code.subrange(l, code.len() as int);
        lemma_expr_operands_earlier(code.subrange(0, l), es[0], start);
        lemma_exprs_operands_earlier(rest, es.drop_first(), start + l);
        assert forall|i: int| 0 <= i < code.len() implies match (#[trigger] code[i]).opcode {
            Opcode::Binary { left, right, .. } => left.0 < code[i].id.0 && right.0 < code[i].id.0,
            Opcode::Unary(_, a) => a.0 < code[i].id.0,
            Opcode::Tuple { values } => forall|j: int|
                0 <= j < values@.len() ==> (#[trigger] values@[j]).0 < code[i].id.0,
            Opcode::Return { value } => value matches Some(v) ==> v.0 < code[i].id.0,
            _ => true,
        } by {
            if i < l {
                assert(code[i] == code.subrange(0, l)[i]);
            } else {
                assert(code[i] == rest[i - l]);
            }
        }
        let ids = exprs_ids(es, start);
        let tail = exprs_ids(es.drop_first(), start + l);
        assert forall|j: int| 0 <= j < es.len() implies (#[trigger] ids[j]).0 < start + exprs_len(
            es,
        ) by {
            if j > 0 {
                assert(ids[j] == tail[j - 1]);
            }
        }
    }
}

/// Lowering puts every operand before the instruction that reads it: each
/// instruction of a lowered block reads only values of instructions with
/// smaller ids.
pub proof fn lemma_block_operands_earlier(code: Seq<Instruction>, b: nt::Block)
    requires
        block_code(code, b),
    ensures
        operands_earlier(code),
{
    if let Some(r) = b.ret_stat {
        let es = r.exprs@;
        let n = exprs_len(es) as int;
        let pre = code.subrange(0, n);
        lemma_exprs_operands_earlier(pre, es, 0);
        let ids = exprs_ids(es, 0);
        assert forall|i: int| 0 <= i < code.len() implies match (#[trigger] code[i]).opcode {
            Opcode::Binary { left, right, .. } => left.0 < code[i].id.0 && right.0 < code[i].id.0,
            Opcode::Unary(_, a) => a.0 < code[i].id.0,
            Opcode::Tuple { values } => forall|j: int|
                0 <= j < values@.len() ==> (#[trigger] values@[j]).0 < code[i].id.0,
            Opcode::Return { value } => value matches Some(v) ==> v.0 < code[i].id.0,
            _ => true,
        } by {
            if i < n {
                assert(code[i] == pre[i]);
            } else if i == n && es.len() >= 2 {
                assert forall|j: int| 0 <= j < ids.len() implies (#[trigger] ids[j]).0 < n by {}
            } else if es.len() == 1 {
                assert(ids[0].0 < n);
            }
        }
    }
}

/// Builds HIR from a name tree
pub struct HirBuilder<'a> {
    tree: &'a nt::NameContainer<nt::Block>,
    instruction_count: u32,
}

impl<'a> HirBuilder<'a> {
    /// The name tree being lowered
    pub closed spec fn source(&self) -> &'a nt::NameContainer<nt::Block> {
        self.tree
    }

    /// Number of instructions emitted so far
    pub closed spec fn count(&self) -> nat {
        self.instruction_count as nat
    }

    /// Create a builder to convert the name tree into HIR.
    pub fn new(tree: &'a nt::NameContainer<nt::Block>) -> (res: Self)
        ensures
            res.source() == tree,
            res.count() == 0,
    {
        Self { tree, instruction_count: 0 }
    }

    /// Whether `run` can lower the tree (see `block_lowerable`)
    #[verifier::loop_isolation(false)]
    pub fn can_lower(tree: &nt::NameContainer<nt::Block>) -> (res: bool)
        ensures
            res == block_lowerable(tree.tree),
    {
        let b = &tree.tree;
        if b.statements.len() != 0 || b.close.len() != 0 {
            return false;
        }
        match &b.ret_stat {
            None => true,
            Some(r) => {
                let mut total: u64 = 0;
                let mut i: usize = 0;
                while i < r.exprs.len()
                    invariant
                        i <= r.exprs@.len(),
                        total == exprs_len(r.exprs@.take(i as int)),
                        total <= u32::MAX,
                        all_lowerable(r.exprs@.take(i as int)),
                    decreases r.exprs@.len() - i,
                {
                    proof {
                        lemma_exprs_split(r.exprs@, i as int, 0);
                    }
                    match lowered_len(&r.exprs[i]) {
                        None => {
                            proof {
                                lemma_exprs_len_prefix(r.exprs@, i as int + 1);
                                if lowerable(r.exprs@[i as int]) {
                                    assert(exprs_len(r.exprs@) > u32::MAX);
                                } else {
                                    assert(!all_lowerable(r.exprs@));
                                }
                            }
                            return false;
                        },
                        Some(n) => {
                            if total + n as u64 > 0xFFFF_FFFF {
                                proof {
                                    lemma_exprs_len_prefix(r.exprs@, i as int + 1);
                                }
                                return false;
                            }
                            total = total + n as u64;
                        },
                    }
                    assert(all_lowerable(r.exprs@.take(i + 1))) by {
                        assert forall|j: int| 0 <= j < i + 1 implies lowerable(
                            #[trigger] r.exprs@.take(i + 1)[j],
                        ) by {
                            if j < i {
                                assert(r.exprs@.take(i + 1)[j] == r.exprs@.take(i as int)[j]);
                            }
                        }
                    }
                    i = i + 1;
                }
                assert(r.exprs@.take(i as int) =~= r.exprs@);
                let extra: u64 = if r.exprs.len() >= 2 {
                    2
                } else {
                    1
                };
                total + extra <= 0xFFFF_FFFF
            },
        }
    }

    /// Get the HIR from the builder.
    pub fn run(self) -> (res: Hir)
        requires
            self.count() == 0,
            block_lowerable(self.source().tree),
        ensures
            block_code(res.instructions@, self.source().tree),
            table_bytes(res.strings@) == table_bytes(self.source().string_table@),
    {
        let tree = self.tree;
        let mut this = self;
        let instructions = this.block(&tree.tree);
        let strings = copy_table(&tree.string_table);
        Hir { instructions, strings }
    }

    /// convert a block statement
    fn block(&mut self, block: &nt::Block) -> (out: Vec<Instruction>)
        requires
            old(self).count() == 0,
            block_lowerable(*block),
        ensures
            block_code(out@, *block),
            final(self).count() == block_len(*block),
    {
        let mut out: Vec<Instruction> = vec![];
        if let Some(ret) = &block.ret_stat {
            let es = &ret.exprs;
            proof {
                lemma_exprs_len_prefix(es@, es@.len() as int);
                assert(es@.take(es@.len() as int) =~= es@);
            }
            let mut exprs: Vec<InstructionId> = Vec::new();
            let mut i: usize = 0;
            assert(out@ =~= Seq::<Instruction>::empty());
            assert(es@.take(0) =~= Seq::<nt::Expression>::empty());
            while i < es.len()
                invariant
                    i <= es@.len(),
                    all_lowerable(es@),
                    exprs_len(es@) + 2 <= u32::MAX + 1,
                    es@.len() >= 2 ==> exprs_len(es@) + 2 <= u32::MAX,
                    exprs@.len() == i,
                    self.count() == exprs_len(es@.take(i as int)),
                    out@.len() == self.count(),
                    exprs_code(out@, es@.take(i as int), 0),
                    exprs@ == exprs_ids(es@.take(i as int), 0),
                decreases es@.len() - i,
            {
                proof {
                    lemma_exprs_split(es@, i as int, 0);
                    lemma_exprs_len_prefix(es@, i as int + 1);
                }
                let ghost before = out@;
                let id = self.expr(&mut out, &es[i]);
                proof {
                    let c = out@.subrange(before.len() as int, out@.len() as int);
                    assert(out@ =~= before + c);
                }
                exprs.push(id);
                i = i + 1;
            }
            assert(es@.take(i as int) =~= es@);
            let ghost before = out@;
            let multi = self.tuple(&mut out, exprs.as_slice());
            self.inst(&mut out, Opcode::Return { value: multi });
            proof {
                let n = exprs_len(es@) as int;
                assert(out@.subrange(0, n) =~= before);
            }
        }
        out
    }

    /// convert an expression
    fn expr(&mut self, out: &mut Vec<Instruction>, expr: &nt::Expression) -> (id: InstructionId)
        requires
            lowerable(*expr),
            old(self).count() + expr_len(*expr) <= u32::MAX,
        ensures
            final(self).count() == old(self).count() + expr_len(*expr),
            final(out)@.len() == old(out)@.len() + expr_len(*expr),
            final(out)@.subrange(0, old(out)@.len() as int) == old(out)@,
            expr_code(
                final(out)@.subrange(old(out)@.len() as int, final(out)@.len() as int),
                *expr,
                old(self).count() as int,
            ),
            id.0 == old(self).count() + expr_len(*expr) - 1,
            final(self).source() == old(self).source(),
        decreases expr,
    {
        let ghost start = self.count() as int;
        let ghost o = out@;
        let id = match expr {
            nt::Expression::Nil => self.inst(out, Opcode::Nil),
            nt::Expression::Bool(b) => self.inst(out, Opcode::Bool(*b)),
            nt::Expression::Number(nt::Number::Float(f)) => self.inst(
                out,
                Opcode::Float(copy_chars(f)),
            ),
            nt::Expression::Number(nt::Number::Integer(i)) => self.inst(out, Opcode::Int(*i)),
            nt::Expression::String(s) => self.inst(out, Opcode::String(*s)),
            nt::Expression::Binary { left, op, right } => {
                let left = self.expr(out, &left);
                let ghost o1 = out@;
                let right = self.expr(out, &right);
                let ghost o2 = out@;
                let id = self.inst(out, Opcode::Binary { left, op: *op, right });
                proof {
                    let code = out@.subrange(o.len() as int, out@.len() as int);
                    let ll = expr_len(*expr->left) as int;
                    let lr = expr_len(*expr->right) as int;
                    assert(code.subrange(0, ll) =~= o1.subrange(o.len() as int, o1.len() as int));
                    assert(code.subrange(ll, ll + lr) =~= o2.subrange(
                        o1.len() as int,
                        o2.len() as int,
                    ));
                    assert(code[ll + lr] == out@[o2.len() as int]);
                    assert forall|i: int| 0 <= i < code.len() implies (#[trigger] code[i]).id.0
                        == start + i by {
                        if i < ll {
                            assert(code[i] == code.subrange(0, ll)[i]);
                        } else if i < ll + lr {
                            assert(code[i] == code.subrange(ll, ll + lr)[i - ll]);
                        }
                    }
                }
                id
            },
            nt::Expression::Unary { expr: inner, op } => {
                let inner_id = self.expr(out, inner);
                let ghost o1 = out@;
                let id = self.inst(out, Opcode::Unary(*op, inner_id));
                proof {
                    let code = out@.subrange(o.len() as int, out@.len() as int);
                    let l = expr_len(**inner) as int;
                    assert(code.subrange(0, l) =~= o1.subrange(o.len() as int, o1.len() as int));
                    assert(code[l] == out@[o1.len() as int]);
                    assert forall|i: int| 0 <= i < code.len() implies (#[trigger] code[i]).id.0
                        == start + i by {
                        if i < l {
                            assert(code[i] == code.subrange(0, l)[i]);
                        }
                    }
                }
                id
            },
            // functions, prefix expressions and tables are not lowerable
            _ => {
                assert(false);
                InstructionId(0)
            },
        };
        proof {
            let code = out@.subrange(o.len() as int, out@.len() as int);
            assert(code[0] == out@[o.len() as int]);
            assert(out@.subrange(0, o.len() as int) =~= o);
        }
        id
    }

    /// Create a tuple contiaining all provided values.  If only one value
    /// is provided, return that single value.  Used for returning multiple values.
    /// Returns None if no input is provided.
    fn tuple(&mut self, out: &mut Vec<Instruction>, values: &[InstructionId]) -> (res: Option<
        InstructionId,
    >)
        requires
            values@.len() >= 2 ==> old(self).count() < u32::MAX,
        ensures
            values@.len() == 0 ==> res is None && final(out)@ == old(out)@ && final(self).count()
                == old(self).count(),
            values@.len() == 1 ==> res == Some(values@[0]) && final(out)@ == old(out)@
                && final(self).count() == old(self).count(),
            values@.len() >= 2 ==> {
                &&& res == Some(InstructionId(old(self).count() as u32))
                &&& final(self).count() == old(self).count() + 1
                &&& final(out)@.len() == old(out)@.len() + 1
                &&& final(out)@.take(old(out)@.len() as int) == old(out)@
                &&& final(out)@.last().id == InstructionId(old(self).count() as u32)
                &&& final(out)@.last().opcode matches Opcode::Tuple { values: v } && v@
                    == values@
            },
            final(self).source() == old(self).source(),
    {
        if values.len() == 0 {
            None
        } else if values.len() == 1 {
            Some(values[0])
        } else {
            let mut v: Vec<InstructionId> = Vec::new();
            let mut i: usize = 0;
            while i < values.len()
                invariant
                    i <= values@.len(),
                    v@ == values@.take(i as int),
                decreases values@.len() - i,
            {
                v.push(values[i]);
                i = i + 1;
                assert(v@ =~= values@.take(i as int));
            }
            assert(v@ =~= values@);
            let id = self.inst(out, Opcode::Tuple { values: v });
            Some(id)
        }
    }

    /// Create an instruction, add it to the list and return its ID.
    fn inst(&mut self, out: &mut Vec<Instruction>, op: Opcode) -> (id: InstructionId)
        requires
            old(self).count() < u32::MAX,
        ensures
            id == InstructionId(old(self).count() as u32),
            final(self).count() == old(self).count() + 1,
            final(out)@ == old(out)@.push(Instruction { id, opcode: op }),
            final(self).source() == old(self).source(),
    {
        let id = InstructionId(self.instruction_count);
        self.instruction_count = self.instruction_count + 1;
        out.push(Instruction { id, opcode: op });
        id
    }
}

/// The instruction count of a prefix of a list is at most that of the list
proof fn lemma_exprs_len_prefix(es: Seq<nt::Expression>, k: int)
    requires
        0 <= k <= es.len(),
    ensures
        exprs_len(es.take(k)) <= exprs_len(es),
    decreases k,
{
    if k > 0 {
        assert(es.take(k).drop_first() =~= es.drop_first().take(k - 1));
        lemma_exprs_len_prefix(es.drop_first(), k - 1);
    }
}

/// Number of instructions that lowering emits for an expression, where it
/// can be lowered and the count fits in `u32`
fn lowered_len(e: &nt::Expression) -> (res: Option<u32>)
    ensures
        res is Some <==> lowerable(*e) && expr_len(*e) <= u32::MAX,
        res matches Some(n) ==> n == expr_len(*e),
    decreases e,
{
    match e {
        nt::Expression::Nil | nt::Expression::Bool(_) | nt::Expression::Number(_)
        | nt::Expression::String(_) => Some(1),
        nt::Expression::Binary { left, right, .. } => {
            let l = lowered_len(left);
            let r = lowered_len(right);
            match (l, r) {
                (Some(a), Some(b)) => {
                    if a as u64 + b as u64 + 1 > 0xFFFF_FFFF {
                        None
                    } else {
                        Some(a + b + 1)
                    }
                },
                _ => None,
            }
        },
        nt::Expression::Unary { expr, .. } => match lowered_len(expr) {
            Some(a) => if a < 0xFFFF_FFFF {
                Some(a + 1)
            } else {
                None
            },
            None => None,
        },
        _ => None,
    }
}

/// The bytes of each string of a table
pub open spec fn table_bytes(t: Seq<Vec<u8>>) -> Seq<Seq<u8>> {
    t.map_values(|v: Vec<u8>| v@)
}

/// A copy of a string table
fn copy_table(t: &Vec<Vec<u8>>) -> (res: Vec<Vec<u8>>)
    ensures
        table_bytes(res@) == table_bytes(t@),
{
    let mut res: Vec<Vec<u8>> = Vec::new();
    let mut i: usize = 0;
    while i < t.len()
        invariant
            i <= t@.len(),
            res@.len() == i,
            forall|j: int| 0 <= j < i ==> (#[trigger] res@[j])@ == t@[j]@,
        decreases t@.len() - i,
    {
        let mut s: Vec<u8> = Vec::new();
        let mut k: usize = 0;
        while k < t[i].len()
            invariant
                i < t@.len(),
                k <= t@[i as int]@.len(),
                s@ == t@[i as int]@.take(k as int),
            decreases t@[i as int]@.len() - k,
        {
            s.push(t[i][k]);
            k = k + 1;
            assert(s@ =~= t@[i as int]@.take(k as int));
        }
        assert(s@ =~= t@[i as int]@);
        res.push(s);
        i = i + 1;
    }
    assert(table_bytes(res@) =~= table_bytes(t@));
    res
}

/// A copy of some characters
fn copy_chars(c: &Vec<char>) -> (res: Vec<char>)
    ensures
        res@ == c@,
{
    let mut res: Vec<char> = Vec::new();
    let mut i: usize = 0;
    while i < c.len()
        invariant
            i <= c@.len(),
            res@ == c@.take(i as int),
        decreases c@.len() - i,
    {
        res.push(c[i]);
        i = i + 1;
        assert(res@ =~= c@.take(i as int));
    }
    assert(res@ =~= c@);
    res
}

} // verus!
