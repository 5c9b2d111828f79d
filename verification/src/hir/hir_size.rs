//! Sizes of HIR, counted through all its allocations.  Each `Vec` counts
//! its capacity, which its allocator chose, so each size is stated as a
//! lower bound: the bytes the HIR takes were every buffer as long as its
//! contents, saturating at `usize::MAX`.

use vstd::prelude::*;

use crate::hir::hir_tree::{Hir, Instruction, Opcode};
use crate::name_resolution::name_tree_size::{least_strings, strings_size};
use crate::utils::size_of::{add_size, buffer_size, least_buffer, sat, SizeOf};

verus! {

/// Bytes that a list of instructions takes at least
pub open spec fn least_instructions(s: Seq<Instruction>) -> nat
    decreases s, 1nat,
{
    least_buffer(s) + sum_instructions(s)
}

/// What the instructions of a list hold, at least
pub open spec fn sum_instructions(s: Seq<Instruction>) -> nat
    decreases s, 0nat,
{
    if s.len() == 0 {
        0
    } else {
        sum_instructions(s.drop_last()) + least_opcode(s.last().opcode)
    }
}

/// Bytes that an opcode holds at least
pub open spec fn least_opcode(op: Opcode) -> nat
    decreases op, 2nat,
{
    match op {
        Opcode::Block { instructions } => least_instructions(instructions@),
        Opcode::Tuple { values } => least_buffer(values@),
        _ => 0,
    }
}

/// Size of a list of instructions
pub fn instructions_size(v: &Vec<Instruction>) -> (res: usize)
    ensures
        res >= sat(least_instructions(v@) as int),
    decreases v,
{
    let mut total = buffer_size(v);
    let mut i: usize = 0;
    while i < v.len()
        invariant
            i <= v@.len(),
            total >= sat((least_buffer(v@) + sum_instructions(v@.take(i as int))) as int),
        decreases v@.len() - i,
    {
        proof {
            assert(v@.take(i + 1).drop_last() =~= v@.take(i as int));
        }
        total = add_size(total, opcode_size(&v[i].opcode));
        i = i + 1;
    }
    proof {
        assert(v@.take(i as int) =~= v@);
    }
    total
}

/// Size of an opcode
pub fn opcode_size(op: &Opcode) -> (res: usize)
    ensures
        res >= sat(least_opcode(*op) as int),
    decreases op,
{
    match op {
        Opcode::Block { instructions } => instructions_size(instructions),
        Opcode::Tuple { values } => buffer_size(values),
        _ => 0,
    }
}

/// Size of a module's HIR
pub fn hir_size(hir: &Hir) -> (res: usize)
    ensures
        res >= sat((least_instructions(hir.instructions@) + least_strings(hir.strings@)) as int),
{
    add_size(instructions_size(&hir.instructions), strings_size(&hir.strings))
}

impl SizeOf for Hir {
    open spec fn least_size(&self) -> nat {
        least_instructions(self.instructions@) + least_strings(self.strings@)
    }

    fn size(&self) -> usize {
        hir_size(self)
    }
}

impl SizeOf for Instruction {
    open spec fn least_size(&self) -> nat {
        least_opcode(self.opcode)
    }

    fn size(&self) -> usize {
        opcode_size(&self.opcode)
    }
}

impl SizeOf for Opcode {
    open spec fn least_size(&self) -> nat {
        least_opcode(*self)
    }

    fn size(&self) -> usize {
        opcode_size(self)
    }
}

} // verus!
