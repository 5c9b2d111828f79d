//! HIR (High-level Intermediate Representation)
//! This is a less-complex representation of a source program.  It is a de-sugaring
//! of the name-tree into something half-way between an AST and a CFG.  The aim
//! is for this to be utilised for type checking.
//!
//! Each opcode in here is relatively high-level, and might end up getting lowered
//! into a lot of smaller, lower level instructions, e.g. add turns into type checks,
//! an actual add, metatable lookup, calling one of the possible metatables, etc.

use vstd::prelude::*;

use crate::name_resolution::name_tree::StringId;
use crate::parser::ast::{BinaryOperator, UnaryOperator};

verus! {

/// Root of the High-level IR
#[derive(Debug)]
pub struct Hir {
    /// All instructions in the root of a module
    pub instructions: Vec<Instruction>,
    /// Strings used by the program, indexed by `StringId`
    pub strings: Vec<Vec<u8>>,
}

/// The id of an instruction, which also names the value it produces.
#[derive(Debug, Clone, Copy, PartialEq, Eq, Structural)]
pub struct InstructionId(pub u32);

/// A HIR instruction with its ID.
#[derive(Debug)]
pub struct Instruction {
    pub id: InstructionId,
    pub opcode: Opcode,
}

/// All possible HIR instructions.  A float keeps the text of its literal.
#[derive(Debug)]
pub enum Opcode {
    // statements
    Block { instructions: Vec<Instruction> },
    Return { value: Option<InstructionId> },
    Tuple { values: Vec<InstructionId> },
    // expressions
    Nil,
    Bool(bool),
    Float(Vec<char>),
    Int(u64),
    String(StringId),
    Binary { left: InstructionId, op: BinaryOperator, right: InstructionId },
    Unary(UnaryOperator, InstructionId),
}

} // verus!
