//! Very simple AST, optimised for ease of writing.  Its shape follows the
//! grammar of lua.

use vstd::prelude::*;

use crate::parser::lexer::Token;

verus! {

/// A sequence of code.  Note that block and chunk are the same in lua.  A file
/// contains 1 block.
/// chunk ::= block
/// block ::= {stat} [retstat]
#[derive(Debug)]
pub struct Block<'a> {
    pub statements: Vec<Statement<'a>>,
    pub ret_stat: Option<ReturnStatement<'a>>,
}

/// stat ::=  ‘;’ |
///      varlist ‘=’ explist |
///      functioncall |
///      label |
///      break |
///      goto Name |
///      do block end |
///      while exp do block end |
///      repeat block until exp |
///      if exp then block {elseif exp then block} [else block] end |
///      for Name ‘=’ exp ‘,’ exp [‘,’ exp] do block end |
///      for namelist in explist do block end |
///      function funcname funcbody |
///      local function Name funcbody |
///      global function Name funcbody |
///      local attnamelist [‘=’ explist] |
///      global attnamelist [‘=’ explist] |
///      global [attrib] ‘*’
#[derive(Debug)]
#[allow(inconsistent_fields)]
pub enum Statement<'a> {
    Empty,
    Assign { vars: Vec<Var<'a>>, exps: Vec<Expression<'a>> },
    Call(FunctionCall<'a>),
    Label(Label<'a>),
    Break,
    Goto(Token<'a>),
    Block(Block<'a>),
    While { expr: Expression<'a>, block: Block<'a> },
    Repeat { block: Block<'a>, expr: Expression<'a> },
    If {
        expr: Expression<'a>,
        block: Block<'a>,
        elseif: Vec<(Expression<'a>, Block<'a>)>,
        else_block: Option<Block<'a>>,
    },
    For {
        name: Token<'a>,
        initial: Expression<'a>,
        limit: Expression<'a>,
        step: Option<Expression<'a>>,
        block: Block<'a>,
    },
    ForEach { names: Vec<Token<'a>>, exprs: Vec<Expression<'a>>, block: Block<'a> },
    Function { name: FunctionName<'a>, body: Function<'a>, vis: Option<Visibility> },
    Declare { vis: Visibility, names: AttributeNameList<'a>, exprs: Vec<Expression<'a>> },
    GlobalCollective { attrib: Option<Attribute<'a>> },
}

#[derive(Debug, Clone, Copy, PartialEq, Eq, Structural)]
pub enum Visibility {
    Local,
    Global,
}

/// attnamelist ::=  [attrib] Name [attrib] {‘,’ Name [attrib]}
#[derive(Debug)]
pub struct AttributeNameList<'a> {
    pub attrib: Option<Attribute<'a>>,
    pub names: Vec<(Token<'a>, Option<Attribute<'a>>)>,
}

/// attrib ::= ‘<’ Name ‘>’
#[derive(Debug, Clone, Copy)]
pub struct Attribute<'a> {
    pub name: Token<'a>,
}

/// retstat ::= return [explist] [‘;’]
#[derive(Debug)]
pub struct ReturnStatement<'a> {
    pub exprs: Vec<Expression<'a>>,
}

/// label ::= ‘::’ Name ‘::’
#[derive(Debug, Clone, Copy)]
pub struct Label<'a> {
    pub name: Token<'a>,
}

/// funcname ::= Name {‘.’ Name} [‘:’ Name]
#[derive(Debug)]
pub struct FunctionName<'a> {
    pub names: Vec<Token<'a>>,
    pub method: Option<Token<'a>>,
}

/// varlist ::= var {‘,’ var}
/// var ::=  Name | prefixexp ‘[’ exp ‘]’ | prefixexp ‘.’ Name
#[derive(Debug)]
pub enum Var<'a> {
    Name(Token<'a>),
    Index { first: PrefixExpression<'a>, index: Expression<'a> },
    Dot { first: PrefixExpression<'a>, name: Token<'a> },
}

/// explist ::= exp {‘,’ exp}
/// exp ::=  nil | false | true | Numeral | LiteralString | ‘...’ | functiondef |
///      prefixexp | tableconstructor | exp binop exp | unop exp
#[derive(Debug)]
#[allow(inconsistent_fields)]
pub enum Expression<'a> {
    Nil,
    False,
    True,
    Number(Token<'a>),
    String(Token<'a>),
    DotDotDot,
    Function(Function<'a>),
    Prefix(PrefixExpression<'a>),
    Table(FieldList<'a>),
    Binary { left: Box<Expression<'a>>, op: BinaryOperator, right: Box<Expression<'a>> },
    Unary { expr: Box<Expression<'a>>, op: UnaryOperator },
}

/// prefixexp ::= var | functioncall | ‘(’ exp ‘)’
#[derive(Debug)]
pub enum PrefixExpression<'a> {
    Var(Box<Var<'a>>),
    Call(FunctionCall<'a>),
    Expr(Box<Expression<'a>>),
}

/// functioncall ::=  prefixexp args | prefixexp ‘:’ Name args
#[derive(Debug)]
pub struct FunctionCall<'a> {
    pub receiver: Box<PrefixExpression<'a>>,
    pub method_name: Option<Token<'a>>,
    pub args: FunctionArgs<'a>,
}

/// args ::=  ‘(’ [explist] ‘)’ | tableconstructor | LiteralString
#[derive(Debug)]
pub enum FunctionArgs<'a> {
    Call { exprs: Vec<Expression<'a>> },
    Table { table: FieldList<'a> },
    String { value: Token<'a> },
}

/// functiondef ::= function funcbody
/// funcbody ::= ‘(’ [parlist] ‘)’ block end
#[derive(Debug)]
pub struct Function<'a> {
    pub parameters: ParameterList<'a>,
    pub body: Block<'a>,
}

/// parlist ::= namelist [‘,’ varargparam] | varargparam
/// varargparam ::= ‘...’ [Name]
#[derive(Debug)]
pub struct ParameterList<'a> {
    pub names: Vec<Token<'a>>,
    pub var_name: Option<Option<Token<'a>>>,
}

/// tableconstructor ::= ‘{’ [fieldlist] ‘}’
/// fieldlist ::= field {fieldsep field} [fieldsep]
#[derive(Debug)]
pub struct FieldList<'a> {
    pub fields: Vec<Field<'a>>,
}

/// field ::= ‘[’ exp ‘]’ ‘=’ exp | Name ‘=’ exp | exp
/// fieldsep ::= ‘,’ | ‘;’
#[derive(Debug)]
pub enum Field<'a> {
    Index { index: Expression<'a>, expr: Expression<'a> },
    Assign { name: Token<'a>, expr: Expression<'a> },
    Exp { expr: Expression<'a> },
}

/// binop ::=  ‘+’ | ‘-’ | ‘*’ | ‘/’ | ‘//’ | ‘^’ | ‘%’ |
///      ‘&’ | ‘~’ | ‘|’ | ‘>>’ | ‘<<’ | ‘..’ |
///      ‘<’ | ‘<=’ | ‘>’ | ‘>=’ | ‘==’ | ‘~=’ |
///      and | or
#[derive(Debug, Clone, Copy, PartialEq, Eq, Structural)]
pub enum BinaryOperator {
    Plus,
    Minus,
    Multiply,
    Divide,
    FloorDivide,
    Exponent,
    Modulo,
    BitAnd,
    BitXor,
    BitOr,
    RightShift,
    LeftShift,
    Concat,
    Less,
    LessEqual,
    Greater,
    GreaterEqual,
    Equal,
    NotEqual,
    And,
    Or,
}

/// unop ::= ‘-’ | not | ‘#’ | ‘~’
#[derive(Debug, Clone, Copy, PartialEq, Eq, Structural)]
pub enum UnaryOperator {
    Negate,
    Not,
    Hash,
    Tilde,
}

/// The name of the operator, as its `Debug` form writes it
pub open spec fn binary_name(op: BinaryOperator) -> Seq<char> {
    match op {
            BinaryOperator::Plus => "Plus"@,
            BinaryOperator::Minus => "Minus"@,
            BinaryOperator::Multiply => "Multiply"@,
            BinaryOperator::Divide => "Divide"@,
            BinaryOperator::FloorDivide => "FloorDivide"@,
            BinaryOperator::Exponent => "Exponent"@,
            BinaryOperator::Modulo => "Modulo"@,
            BinaryOperator::BitAnd => "BitAnd"@,
            BinaryOperator::BitXor => "BitXor"@,
            BinaryOperator::BitOr => "BitOr"@,
            BinaryOperator::RightShift => "RightShift"@,
            BinaryOperator::LeftShift => "LeftShift"@,
            BinaryOperator::Concat => "Concat"@,
            BinaryOperator::Less => "Less"@,
            BinaryOperator::LessEqual => "LessEqual"@,
            BinaryOperator::Greater => "Greater"@,
            BinaryOperator::GreaterEqual => "GreaterEqual"@,
            BinaryOperator::Equal => "Equal"@,
            BinaryOperator::NotEqual => "NotEqual"@,
            BinaryOperator::And => "And"@,
            BinaryOperator::Or => "Or"@,
    }
}

impl BinaryOperator {
    /// The name of the operator, as its `Debug` form writes it
    pub fn name(&self) -> (res: &'static str)
        ensures
            res@ == binary_name(*self),
    {
        match self {
            BinaryOperator::Plus => "Plus",
            BinaryOperator::Minus => "Minus",
            BinaryOperator::Multiply => "Multiply",
            BinaryOperator::Divide => "Divide",
            BinaryOperator::FloorDivide => "FloorDivide",
            BinaryOperator::Exponent => "Exponent",
            BinaryOperator::Modulo => "Modulo",
            BinaryOperator::BitAnd => "BitAnd",
            BinaryOperator::BitXor => "BitXor",
            BinaryOperator::BitOr => "BitOr",
            BinaryOperator::RightShift => "RightShift",
            BinaryOperator::LeftShift => "LeftShift",
            BinaryOperator::Concat => "Concat",
            BinaryOperator::Less => "Less",
            BinaryOperator::LessEqual => "LessEqual",
            BinaryOperator::Greater => "Greater",
            BinaryOperator::GreaterEqual => "GreaterEqual",
            BinaryOperator::Equal => "Equal",
            BinaryOperator::NotEqual => "NotEqual",
            BinaryOperator::And => "And",
            BinaryOperator::Or => "Or",
        }
    }
}

/// The name of the operator, as its `Debug` form writes it
pub open spec fn unary_name(op: UnaryOperator) -> Seq<char> {
    match op {
            UnaryOperator::Negate => "Negate"@,
            UnaryOperator::Not => "Not"@,
            UnaryOperator::Hash => "Hash"@,
            UnaryOperator::Tilde => "Tilde"@,
    }
}

impl UnaryOperator {
    /// The name of the operator, as its `Debug` form writes it
    pub fn name(&self) -> (res: &'static str)
        ensures
            res@ == unary_name(*self),
    {
        match self {
            UnaryOperator::Negate => "Negate",
            UnaryOperator::Not => "Not",
            UnaryOperator::Hash => "Hash",
            UnaryOperator::Tilde => "Tilde",
        }
    }
}

} // verus!
