//! Parsing of token streams into syntax trees.

pub mod ast;
pub mod ast_print;
pub mod ast_size;
pub mod lexer;

use vstd::prelude::*;

use crate::parser::lexer::{lex_step, LexError, Lexer, Token, TokenKind};

verus! {

/// Why a source text could not be parsed
#[derive(Debug, Clone, Copy)]
pub enum ParseError<'a> {
    /// The source text could not be split into tokens
    Lex(LexError),
    /// A syntax error, referring to a token
    Syntax { token: Token<'a>, message: &'static str },
}

/// Create a syntax tree from a token stream
#[derive(Debug, Clone, Copy)]
pub struct Parser<'a> {
    lexer: Lexer<'a>,
    current: Token<'a>,
    previous: Token<'a>,
}

/// Order of precedence for all operators, loosest to tightest binding.
#[derive(Debug, Clone, Copy, PartialEq, Eq, Structural)]
pub enum Precedence {
    NoPrec,
    OrPrec,
    AndPrec,
    Relation,
    BitOr,
    BitXor,
    BitAnd,
    Shift,
    Concat,
    Additive,
    Multiplicative,
    Unary,
    Exponent,
    Call,
    Primary,
}

/// All functions that parse a prefix operator
#[derive(Debug, Clone, Copy, PartialEq, Eq, Structural)]
pub enum PrefixRule {
    Number,
    String,
    True,
    False,
    DotDotDot,
    Nil,
    Name,
    Function,
    Table,
    Grouping,
    Unary,
}

/// All functions that parse an postfix (or infix) operator.
#[derive(Debug, Clone, Copy, PartialEq, Eq, Structural)]
pub enum PostfixRule {
    Binary,
    Right,
    Index,
    Dot,
    CallArgs,
    CallMethod,
    CallString,
    CallTable,
}

/// Parsers for a given operator token
#[derive(Debug, Clone, Copy, PartialEq, Eq, Structural)]
pub struct ParseRule {
    pub prefix: Option<PrefixRule>,
    pub postfix: Option<PostfixRule>,
    pub precedence: Precedence,
}

/// Result of a postfix parser: whether it applied to the expression on its
/// left, giving a new expression, or did not, handing the expression back.
#[derive(Debug)]
pub enum Postfix<'a> {
    Applied(ast::Expression<'a>),
    NotApplicable(ast::Expression<'a>),
}

/// Whether a token of kind `k` starts a statement by its keyword
pub open spec fn keyword_statement(k: TokenKind) -> bool {
    ||| k == TokenKind::SemiColon
    ||| k == TokenKind::ColonColon
    ||| k == TokenKind::Break
    ||| k == TokenKind::Goto
    ||| k == TokenKind::Do
    ||| k == TokenKind::While
    ||| k == TokenKind::Repeat
    ||| k == TokenKind::If
    ||| k == TokenKind::For
    ||| k == TokenKind::Function
    ||| k == TokenKind::Local
    ||| k == TokenKind::Global
}

/// Whether a token of kind `k` ends a block before any statement: it
/// begins no statement, no expression and no return, and is not the end of
/// the file
pub open spec fn ends_block(k: TokenKind) -> bool {
    &&& !keyword_statement(k)
    &&& parse_rule(k).prefix is None
    &&& k != TokenKind::Eof
    &&& k != TokenKind::Return
}

/// The statement that a `;` or `break` token alone is
pub open spec fn trivial_statement<'a>(k: TokenKind) -> ast::Statement<'a> {
    if k == TokenKind::SemiColon {
        ast::Statement::Empty
    } else {
        ast::Statement::Break
    }
}

/// Whether the kinds ahead are `;` and `break` tokens up to the end of the
/// file
pub open spec fn trivial_file(toks: Option<Seq<TokenKind>>) -> bool {
    &&& toks matches Some(t)
    &&& t.len() >= 1
    &&& t.last() == TokenKind::Eof
    &&& forall|i: int|
        0 <= i < t.len() - 1 ==> (#[trigger] t[i] == TokenKind::SemiColon || t[i]
            == TokenKind::Break)
}

/// Whether `b` is the block of the statements that the `;` and `break`
/// tokens `t`, before the end of the file, stand for
pub open spec fn trivial_block<'a>(b: ast::Block<'a>, t: Seq<TokenKind>) -> bool {
    &&& b.statements@.len() == t.len() - 1
    &&& b.ret_stat is None
    &&& forall|i: int|
        0 <= i < t.len() - 1 ==> #[trigger] b.statements@[i] == trivial_statement::<'a>(t[i])
}

/// Whether `s` is a statement of the form that a statement beginning with a
/// token of kind `k` takes
pub open spec fn statement_for<'a>(k: TokenKind, s: ast::Statement<'a>) -> bool {
    match k {
        TokenKind::SemiColon => s is Empty,
        TokenKind::ColonColon => s matches ast::Statement::Label(l) && l.name.kind == TokenKind::Name,
        TokenKind::Break => s is Break,
        TokenKind::Goto => s matches ast::Statement::Goto(t) && t.kind == TokenKind::Name,
        TokenKind::Do => s is Block,
        TokenKind::While => s is While,
        TokenKind::Repeat => s is Repeat,
        TokenKind::If => s is If,
        TokenKind::For => s is For || s is ForEach,
        TokenKind::Function => s matches ast::Statement::Function { vis: None, .. },
        TokenKind::Local => {
            ||| s matches ast::Statement::Function { vis: Some(ast::Visibility::Local), .. }
            ||| s matches ast::Statement::Declare { vis: ast::Visibility::Local, .. }
        },
        TokenKind::Global => {
            ||| s matches ast::Statement::Function { vis: Some(ast::Visibility::Global), .. }
            ||| s matches ast::Statement::Declare { vis: ast::Visibility::Global, .. }
            ||| s is GlobalCollective
        },
        _ => s is Assign || s is Call,
    }
}

/// Binding strength of a precedence: higher binds tighter.
pub open spec fn level(p: Precedence) -> nat {
    match p {
        Precedence::NoPrec => 0,
        Precedence::OrPrec => 1,
        Precedence::AndPrec => 2,
        Precedence::Relation => 3,
        Precedence::BitOr => 4,
        Precedence::BitXor => 5,
        Precedence::BitAnd => 6,
        Precedence::Shift => 7,
        Precedence::Concat => 8,
        Precedence::Additive => 9,
        Precedence::Multiplicative => 10,
        Precedence::Unary => 11,
        Precedence::Exponent => 12,
        Precedence::Call => 13,
        Precedence::Primary => 14,
    }
}

pub open spec fn rule(
    prefix: Option<PrefixRule>,
    postfix: Option<PostfixRule>,
    precedence: Precedence,
) -> ParseRule {
    ParseRule { prefix, postfix, precedence }
}

/// The parse rule table: for each token kind, how it parses at the start of
/// an expression, how it parses after one, and how tightly it binds.
pub open spec fn parse_rule(k: TokenKind) -> ParseRule {
    match k {
        TokenKind::Plus => rule(None, Some(PostfixRule::Binary), Precedence::Additive),
        TokenKind::Minus => rule(
            Some(PrefixRule::Unary),
            Some(PostfixRule::Binary),
            Precedence::Additive,
        ),
        TokenKind::Star => rule(None, Some(PostfixRule::Binary), Precedence::Multiplicative),
        TokenKind::Percent => rule(None, Some(PostfixRule::Binary), Precedence::Multiplicative),
        TokenKind::Caret => rule(None, Some(PostfixRule::Right), Precedence::Exponent),
        TokenKind::Hash => rule(Some(PrefixRule::Unary), None, Precedence::NoPrec),
        TokenKind::Ampersand => rule(None, Some(PostfixRule::Binary), Precedence::BitAnd),
        TokenKind::Bar => rule(None, Some(PostfixRule::Binary), Precedence::BitOr),
        TokenKind::LeftParen => rule(
            Some(PrefixRule::Grouping),
            Some(PostfixRule::CallArgs),
            Precedence::Call,
        ),
        TokenKind::LeftCurly => rule(
            Some(PrefixRule::Table),
            Some(PostfixRule::CallTable),
            Precedence::Call,
        ),
        TokenKind::LeftSquare => rule(None, Some(PostfixRule::Index), Precedence::Call),
        TokenKind::Less => rule(None, Some(PostfixRule::Binary), Precedence::Relation),
        TokenKind::LessLess => rule(None, Some(PostfixRule::Binary), Precedence::Shift),
        TokenKind::LessEqual => rule(None, Some(PostfixRule::Binary), Precedence::Relation),
        TokenKind::Greater => rule(None, Some(PostfixRule::Binary), Precedence::Relation),
        TokenKind::GreaterGreater => rule(None, Some(PostfixRule::Binary), Precedence::Shift),
        TokenKind::GreaterEqual => rule(None, Some(PostfixRule::Binary), Precedence::Relation),
        TokenKind::Slash => rule(None, Some(PostfixRule::Binary), Precedence::Multiplicative),
        TokenKind::SlashSlash => rule(
            None,
            Some(PostfixRule::Binary),
            Precedence::Multiplicative,
        ),
        TokenKind::EqualEqual => rule(None, Some(PostfixRule::Binary), Precedence::Relation),
        TokenKind::Tilde => rule(
            Some(PrefixRule::Unary),
            Some(PostfixRule::Binary),
            Precedence::NoPrec,
        ),
        TokenKind::TildeEqual => rule(None, Some(PostfixRule::Binary), Precedence::Relation),
        TokenKind::Colon => rule(None, Some(PostfixRule::CallMethod), Precedence::Call),
        TokenKind::Dot => rule(None, Some(PostfixRule::Dot), Precedence::Call),
        TokenKind::DotDot => rule(None, Some(PostfixRule::Right), Precedence::Concat),
        TokenKind::DotDotDot => rule(Some(PrefixRule::DotDotDot), None, Precedence::NoPrec),
        TokenKind::Name => rule(Some(PrefixRule::Name), None, Precedence::NoPrec),
        TokenKind::String => rule(
            Some(PrefixRule::String),
            Some(PostfixRule::CallString),
            Precedence::Call,
        ),
        TokenKind::Number => rule(Some(PrefixRule::Number), None, Precedence::NoPrec),
        TokenKind::And => rule(None, Some(PostfixRule::Binary), Precedence::AndPrec),
        TokenKind::False => rule(Some(PrefixRule::False), None, Precedence::NoPrec),
        TokenKind::Function => rule(Some(PrefixRule::Function), None, Precedence::NoPrec),
        TokenKind::Nil => rule(Some(PrefixRule::Nil), None, Precedence::NoPrec),
        TokenKind::Not => rule(Some(PrefixRule::Unary), None, Precedence::NoPrec),
        TokenKind::Or => rule(None, Some(PostfixRule::Binary), Precedence::OrPrec),
        TokenKind::True => rule(Some(PrefixRule::True), None, Precedence::NoPrec),
        _ => rule(None, None, Precedence::NoPrec),
    }
}

/// The binding level of the binary operators of Lua, from loosest to
/// tightest, as the language reference orders them: `or`; `and`; the
/// comparisons; `|`; `&`; the shifts; `..`; `+` and `-`; `*`, `/`, `//` and
/// `%`; then `^`, above the unary operators. (The reference puts binary `~`
/// between `|` and `&`; this grammar reads `~` as a prefix operator and
/// gives it no binding level of its own.)
pub open spec fn lua_operator_level(k: TokenKind) -> Option<nat> {
    match k {
        TokenKind::Or => Some(1),
        TokenKind::And => Some(2),
        TokenKind::Less | TokenKind::Greater | TokenKind::LessEqual | TokenKind::GreaterEqual
        | TokenKind::TildeEqual | TokenKind::EqualEqual => Some(3),
        TokenKind::Bar => Some(4),
        TokenKind::Ampersand => Some(6),
        TokenKind::LessLess | TokenKind::GreaterGreater => Some(7),
        TokenKind::DotDot => Some(8),
        TokenKind::Plus | TokenKind::Minus => Some(9),
        TokenKind::Star | TokenKind::Slash | TokenKind::SlashSlash | TokenKind::Percent => Some(10),
        TokenKind::Caret => Some(12),
        _ => None,
    }
}

/// The parse rule of every binary operator binds as tightly as Lua says:
/// its precedence has the operator's level, so that of two operators the one
/// with the higher level takes its operands first (`a + b % c` is
/// `a + (b % c)`); `^` and `..` are the right associative ones; and no other
/// token but `~` is parsed as a binary operator.
pub proof fn law_operator_precedence(k: TokenKind)
    ensures
        lua_operator_level(k) matches Some(l) ==> parse_rule(k).postfix is Some && level(
            parse_rule(k).precedence,
        ) == l,
        (parse_rule(k).postfix == Some(PostfixRule::Binary) || parse_rule(k).postfix == Some(
            PostfixRule::Right,
        )) && k != TokenKind::Tilde ==> lua_operator_level(k) is Some,
        parse_rule(k).postfix == Some(PostfixRule::Right) <==> (k == TokenKind::Caret || k
            == TokenKind::DotDot),
        lua_operator_level(k) == Some(12nat) ==> level(parse_rule(k).precedence) > level(
            Precedence::Unary,
        ),
{
}

/// The tokens that start an expression as a unary operator are Lua's unary
/// operators `-`, `not`, `#` and `~`; each literal, a name, `...`,
/// `function`, `{` and `(` start the expression of their own kind; the suffixes that make a call, an index
/// or a field access (`(`, `{`, a string, `:`, `[`, `.`) bind tighter than
/// every operator.
pub proof fn law_prefix_and_call_rules(k: TokenKind)
    ensures
        parse_rule(k).prefix == Some(PrefixRule::Unary) <==> (k == TokenKind::Minus || k
            == TokenKind::Not || k == TokenKind::Hash || k == TokenKind::Tilde),
        k == TokenKind::LeftParen ==> parse_rule(k).postfix == Some(PostfixRule::CallArgs),
        k == TokenKind::LeftCurly ==> parse_rule(k).postfix == Some(PostfixRule::CallTable),
        k == TokenKind::String ==> parse_rule(k).postfix == Some(PostfixRule::CallString),
        k == TokenKind::Colon ==> parse_rule(k).postfix == Some(PostfixRule::CallMethod),
        k == TokenKind::LeftSquare ==> parse_rule(k).postfix == Some(PostfixRule::Index),
        k == TokenKind::Dot ==> parse_rule(k).postfix == Some(PostfixRule::Dot),
        k == TokenKind::Number <==> parse_rule(k).prefix == Some(PrefixRule::Number),
        k == TokenKind::String <==> parse_rule(k).prefix == Some(PrefixRule::String),
        k == TokenKind::True <==> parse_rule(k).prefix == Some(PrefixRule::True),
        k == TokenKind::False <==> parse_rule(k).prefix == Some(PrefixRule::False),
        k == TokenKind::Nil <==> parse_rule(k).prefix == Some(PrefixRule::Nil),
        k == TokenKind::DotDotDot <==> parse_rule(k).prefix == Some(PrefixRule::DotDotDot),
        k == TokenKind::Name <==> parse_rule(k).prefix == Some(PrefixRule::Name),
        k == TokenKind::Function <==> parse_rule(k).prefix == Some(PrefixRule::Function),
        k == TokenKind::LeftCurly <==> parse_rule(k).prefix == Some(PrefixRule::Table),
        k == TokenKind::LeftParen <==> parse_rule(k).prefix == Some(PrefixRule::Grouping),
        (parse_rule(k).postfix matches Some(r) && r != PostfixRule::Binary && r
            != PostfixRule::Right) ==> forall|o: TokenKind|
            #[trigger] lua_operator_level(o) matches Some(l) ==> l < level(parse_rule(k).precedence),
{
}

/// The binary operator written by a token of kind `k`, for the kinds parsed
/// by the left associative binary parser.
pub open spec fn binary_operator(k: TokenKind) -> Option<ast::BinaryOperator> {
    match k {
        TokenKind::Plus => Some(ast::BinaryOperator::Plus),
        TokenKind::Minus => Some(ast::BinaryOperator::Minus),
        TokenKind::Star => Some(ast::BinaryOperator::Multiply),
        TokenKind::Slash => Some(ast::BinaryOperator::Divide),
        TokenKind::SlashSlash => Some(ast::BinaryOperator::FloorDivide),
        TokenKind::Percent => Some(ast::BinaryOperator::Modulo),
        TokenKind::LessLess => Some(ast::BinaryOperator::LeftShift),
        TokenKind::GreaterGreater => Some(ast::BinaryOperator::RightShift),
        TokenKind::Ampersand => Some(ast::BinaryOperator::BitAnd),
        TokenKind::Tilde => Some(ast::BinaryOperator::BitXor),
        TokenKind::Bar => Some(ast::BinaryOperator::BitOr),
        TokenKind::Or => Some(ast::BinaryOperator::Or),
        TokenKind::And => Some(ast::BinaryOperator::And),
        TokenKind::Less => Some(ast::BinaryOperator::Less),
        TokenKind::Greater => Some(ast::BinaryOperator::Greater),
        TokenKind::LessEqual => Some(ast::BinaryOperator::LessEqual),
        TokenKind::GreaterEqual => Some(ast::BinaryOperator::GreaterEqual),
        TokenKind::TildeEqual => Some(ast::BinaryOperator::NotEqual),
        TokenKind::EqualEqual => Some(ast::BinaryOperator::Equal),
        TokenKind::DotDot => Some(ast::BinaryOperator::Concat),
        TokenKind::Caret => Some(ast::BinaryOperator::Exponent),
        _ => None,
    }
}

/// The token of a binary operator
pub open spec fn op_token(op: ast::BinaryOperator) -> TokenKind {
    match op {
        ast::BinaryOperator::Plus => TokenKind::Plus,
        ast::BinaryOperator::Minus => TokenKind::Minus,
        ast::BinaryOperator::Multiply => TokenKind::Star,
        ast::BinaryOperator::Divide => TokenKind::Slash,
        ast::BinaryOperator::FloorDivide => TokenKind::SlashSlash,
        ast::BinaryOperator::Exponent => TokenKind::Caret,
        ast::BinaryOperator::Modulo => TokenKind::Percent,
        ast::BinaryOperator::BitAnd => TokenKind::Ampersand,
        ast::BinaryOperator::BitXor => TokenKind::Tilde,
        ast::BinaryOperator::BitOr => TokenKind::Bar,
        ast::BinaryOperator::RightShift => TokenKind::GreaterGreater,
        ast::BinaryOperator::LeftShift => TokenKind::LessLess,
        ast::BinaryOperator::Concat => TokenKind::DotDot,
        ast::BinaryOperator::Less => TokenKind::Less,
        ast::BinaryOperator::LessEqual => TokenKind::LessEqual,
        ast::BinaryOperator::Greater => TokenKind::Greater,
        ast::BinaryOperator::GreaterEqual => TokenKind::GreaterEqual,
        ast::BinaryOperator::Equal => TokenKind::EqualEqual,
        ast::BinaryOperator::NotEqual => TokenKind::TildeEqual,
        ast::BinaryOperator::And => TokenKind::And,
        ast::BinaryOperator::Or => TokenKind::Or,
    }
}

/// Binding strength of a binary operator: that which the parse rule table
/// gives its token
pub open spec fn op_level(op: ast::BinaryOperator) -> nat {
    level(parse_rule(op_token(op)).precedence)
}

/// Whether a binary operator groups to the right
pub open spec fn right_assoc(op: ast::BinaryOperator) -> bool {
    parse_rule(op_token(op)).postfix == Some(PostfixRule::Right)
}

/// Binding strength of the operator at the top of an expression; an
/// expression with none at its top binds tightest.
pub open spec fn top_level<'a>(e: ast::Expression<'a>) -> nat {
    match e {
        ast::Expression::Binary { op, .. } => op_level(op),
        ast::Expression::Unary { .. } => level(Precedence::Unary),
        _ => level(Precedence::Primary),
    }
}

/// Whether a token of kind `k` continues an expression as a binary operator
pub open spec fn binary_token(k: TokenKind) -> bool {
    k != TokenKind::Eof && (parse_rule(k).postfix == Some(PostfixRule::Binary) || parse_rule(
        k,
    ).postfix == Some(PostfixRule::Right))
}

/// Whether a binary operator token of kind `k` may take `e` as its left
/// operand: it binds more loosely than the top of `e`, or as tightly when
/// both group to the left.
pub open spec fn may_follow<'a>(e: ast::Expression<'a>, k: TokenKind) -> bool {
    binary_token(k) ==> {
        ||| level(parse_rule(k).precedence) < top_level(e)
        ||| level(parse_rule(k).precedence) == top_level(e) && parse_rule(k).postfix == Some(
            PostfixRule::Binary,
        ) && (e matches ast::Expression::Binary { op, .. } && !right_assoc(op))
    }
}

/// Whether the binary operator token of kind `k`, if it is one, binds more
/// loosely than `prec`: an expression parsed at `prec` ends before it.
pub open spec fn stops_at(prec: Precedence, k: TokenKind) -> bool {
    binary_token(k) ==> level(parse_rule(k).precedence) < level(prec)
}

/// Whether the operators of an expression, and of every expression within
/// it, nest as their precedence and grouping say: each operand of a binary
/// operator binds at least as tightly as the operator, strictly so on the
/// side it does not group towards, and the operand of a unary operator, if a
/// binary operation, binds more tightly than the unary operator.
pub open spec fn well_bound<'a>(e: ast::Expression<'a>) -> bool
    decreases e,
{
    match e {
        ast::Expression::Binary { left, op, right } => {
            &&& if right_assoc(op) {
                top_level(*left) > op_level(op)
            } else {
                top_level(*left) >= op_level(op)
            }
            &&& (*right is Binary ==> if right_assoc(op) {
                top_level(*right) >= op_level(op)
            } else {
                top_level(*right) > op_level(op)
            })
            &&& well_bound(*left)
            &&& well_bound(*right)
        },
        ast::Expression::Unary { expr, .. } => (*expr is Binary ==> top_level(*expr) >= level(
            Precedence::Unary,
        )) && well_bound(*expr),
        ast::Expression::Function(f) => block_bound(f.body),
        ast::Expression::Prefix(p) => prefix_bound(p),
        ast::Expression::Table(t) => fields_bound(t.fields@),
        _ => true,
    }
}

/// Whether every expression within a prefix expression is well bound
pub open spec fn prefix_bound<'a>(p: ast::PrefixExpression<'a>) -> bool
    decreases p,
{
    match p {
        ast::PrefixExpression::Var(v) => var_bound(*v),
        ast::PrefixExpression::Call(c) => call_bound(c),
        ast::PrefixExpression::Expr(e) => well_bound(*e),
    }
}

/// Whether every expression within a variable is well bound
pub open spec fn var_bound<'a>(v: ast::Var<'a>) -> bool
    decreases v,
{
    match v {
        ast::Var::Name(_) => true,
        ast::Var::Index { first, index } => prefix_bound(first) && well_bound(index),
        ast::Var::Dot { first, .. } => prefix_bound(first),
    }
}

/// Whether every expression within a call is well bound
pub open spec fn call_bound<'a>(c: ast::FunctionCall<'a>) -> bool
    decreases c,
{
    &&& prefix_bound(*c.receiver)
    &&& match c.args {
        ast::FunctionArgs::Call { exprs } => exprs_bound(exprs@),
        ast::FunctionArgs::Table { table } => fields_bound(table.fields@),
        ast::FunctionArgs::String { .. } => true,
    }
}

/// Whether every expression of a list is well bound
pub open spec fn exprs_bound<'a>(s: Seq<ast::Expression<'a>>) -> bool
    decreases s,
{
    forall|i: int| 0 <= i < s.len() ==> well_bound(#[trigger] s[i])
}

/// Whether every variable of a list is well bound
pub open spec fn vars_bound<'a>(s: Seq<ast::Var<'a>>) -> bool
    decreases s,
{
    forall|i: int| 0 <= i < s.len() ==> var_bound(#[trigger] s[i])
}

/// Whether every expression within the fields of a table is well bound
pub open spec fn fields_bound<'a>(s: Seq<ast::Field<'a>>) -> bool
    decreases s,
{
    forall|i: int| 0 <= i < s.len() ==> field_bound(#[trigger] s[i])
}

/// Whether every expression within a table field is well bound
pub open spec fn field_bound<'a>(f: ast::Field<'a>) -> bool
    decreases f,
{
    match f {
        ast::Field::Index { index, expr } => well_bound(index) && well_bound(expr),
        ast::Field::Assign { expr, .. } => well_bound(expr),
        ast::Field::Exp { expr } => well_bound(expr),
    }
}

/// Whether every expression within a block is well bound
pub open spec fn block_bound<'a>(b: ast::Block<'a>) -> bool
    decreases b,
{
    &&& statements_bound(b.statements@)
    &&& (b.ret_stat matches Some(r) ==> exprs_bound(r.exprs@))
}

/// Whether every expression within some statements is well bound
pub open spec fn statements_bound<'a>(s: Seq<ast::Statement<'a>>) -> bool
    decreases s,
{
    forall|i: int| 0 <= i < s.len() ==> statement_bound(#[trigger] s[i])
}

/// Whether every expression within a statement is well bound
pub open spec fn statement_bound<'a>(s: ast::Statement<'a>) -> bool
    decreases s,
{
    match s {
        ast::Statement::Assign { vars, exps } => vars_bound(vars@) && exprs_bound(exps@),
        ast::Statement::Call(c) => call_bound(c),
        ast::Statement::Block(b) => block_bound(b),
        ast::Statement::While { expr, block } => well_bound(expr) && block_bound(block),
        ast::Statement::Repeat { block, expr } => block_bound(block) && well_bound(expr),
        ast::Statement::If { expr, block, elseif, else_block } => {
            &&& well_bound(expr)
            &&& block_bound(block)
            &&& forall|i: int|
                0 <= i < elseif@.len() ==> well_bound((#[trigger] elseif@[i]).0) && block_bound(
                    elseif@[i].1,
                )
            &&& (else_block matches Some(b) ==> block_bound(b))
        },
        ast::Statement::For { initial, limit, step, block, .. } => {
            &&& well_bound(initial)
            &&& well_bound(limit)
            &&& (step matches Some(e) ==> well_bound(e))
            &&& block_bound(block)
        },
        ast::Statement::ForEach { exprs, block, .. } => exprs_bound(exprs@) && block_bound(block),
        ast::Statement::Function { body, .. } => block_bound(body.body),
        ast::Statement::Declare { exprs, .. } => exprs_bound(exprs@),
        _ => true,
    }
}

/// The binary operator tokens: the operator each stands for, how tightly
/// they bind, and that only `^` and `..` group to the right, each alone at
/// its level.
pub proof fn lemma_binary_token(k: TokenKind)
    requires
        binary_token(k),
    ensures
        binary_operator(k) matches Some(op) && op_token(op) == k,
        level(parse_rule(k).precedence) <= level(Precedence::Exponent),
        parse_rule(k).postfix == Some(PostfixRule::Right) <==> (k == TokenKind::Caret || k
            == TokenKind::DotDot),
        level(parse_rule(k).precedence) == level(Precedence::Exponent) ==> k == TokenKind::Caret,
        level(parse_rule(k).precedence) == level(Precedence::Concat) ==> k == TokenKind::DotDot,
{
}

/// The unary operator written by a token of kind `k`.
pub open spec fn unary_operator(k: TokenKind) -> Option<ast::UnaryOperator> {
    match k {
        TokenKind::Minus => Some(ast::UnaryOperator::Negate),
        TokenKind::Tilde => Some(ast::UnaryOperator::Tilde),
        TokenKind::Hash => Some(ast::UnaryOperator::Hash),
        TokenKind::Not => Some(ast::UnaryOperator::Not),
        _ => None,
    }
}

impl Precedence {
    /// Binding strength of this precedence
    pub fn level(self) -> (l: u8)
        ensures
            l == level(self),
    {
        match self {
            Precedence::NoPrec => 0,
            Precedence::OrPrec => 1,
            Precedence::AndPrec => 2,
            Precedence::Relation => 3,
            Precedence::BitOr => 4,
            Precedence::BitXor => 5,
            Precedence::BitAnd => 6,
            Precedence::Shift => 7,
            Precedence::Concat => 8,
            Precedence::Additive => 9,
            Precedence::Multiplicative => 10,
            Precedence::Unary => 11,
            Precedence::Exponent => 12,
            Precedence::Call => 13,
            Precedence::Primary => 14,
        }
    }

    /// Convert a precedence into an empty parse rule
    pub fn into(self) -> (r: ParseRule)
        ensures
            r == rule(None, None, self),
    {
        ParseRule { prefix: None, postfix: None, precedence: self }
    }

    /// Create a parse rule with the given precedence and prefix parser
    pub fn prefix(self, f: PrefixRule) -> (r: ParseRule)
        ensures
            r == rule(Some(f), None, self),
    {
        ParseRule { prefix: Some(f), postfix: None, precedence: self }
    }

    /// Create a parse rule with the given precedence and postfix parser
    pub fn postfix(self, f: PostfixRule) -> (r: ParseRule)
        ensures
            r == rule(None, Some(f), self),
    {
        ParseRule { prefix: None, postfix: Some(f), precedence: self }
    }

    /// Get the next highest precedence after this one
    pub fn next(self) -> (p: Precedence)
        ensures
            self != Precedence::Primary ==> level(p) == level(self) + 1,
            self == Precedence::Primary ==> p == Precedence::Primary,
    {
        match self {
            Precedence::NoPrec => Precedence::OrPrec,
            Precedence::OrPrec => Precedence::AndPrec,
            Precedence::AndPrec => Precedence::Relation,
            Precedence::Relation => Precedence::BitOr,
            Precedence::BitOr => Precedence::BitXor,
            Precedence::BitXor => Precedence::BitAnd,
            Precedence::BitAnd => Precedence::Shift,
            Precedence::Shift => Precedence::Concat,
            Precedence::Concat => Precedence::Additive,
            Precedence::Additive => Precedence::Multiplicative,
            Precedence::Multiplicative => Precedence::Unary,
            Precedence::Unary => Precedence::Exponent,
            Precedence::Exponent => Precedence::Call,
            Precedence::Call => Precedence::Primary,
            Precedence::Primary => Precedence::Primary,
        }
    }
}

impl ParseRule {
    /// Add a postfix parser to this parse rule
    pub fn postfix(self, f: PostfixRule) -> (r: Self)
        ensures
            r == rule(self.prefix, Some(f), self.precedence),
    {
        ParseRule { postfix: Some(f), ..self }
    }

    /// Get a parse rule for the provided token kind
    #[verifier::rlimit(40)]
    pub fn get(tok: TokenKind) -> (r: Self)
        ensures
            r == parse_rule(tok),
    {
        match tok {
            TokenKind::Eof => Precedence::NoPrec.into(),
            TokenKind::Plus => Precedence::Additive.postfix(PostfixRule::Binary),
            TokenKind::Minus => Precedence::Additive.prefix(PrefixRule::Unary).postfix(
                PostfixRule::Binary,
            ),
            TokenKind::Star => Precedence::Multiplicative.postfix(PostfixRule::Binary),
            TokenKind::Percent => Precedence::Multiplicative.postfix(PostfixRule::Binary),
            TokenKind::Caret => Precedence::Exponent.postfix(PostfixRule::Right),
            TokenKind::Hash => Precedence::NoPrec.prefix(PrefixRule::Unary),
            TokenKind::Ampersand => Precedence::BitAnd.postfix(PostfixRule::Binary),
            TokenKind::Bar => Precedence::BitOr.postfix(PostfixRule::Binary),
            TokenKind::Comma => Precedence::NoPrec.into(),
            TokenKind::LeftParen => Precedence::Call.prefix(PrefixRule::Grouping).postfix(
                PostfixRule::CallArgs,
            ),
            TokenKind::RightParen => Precedence::NoPrec.into(),
            TokenKind::LeftCurly => Precedence::Call.prefix(PrefixRule::Table).postfix(
                PostfixRule::CallTable,
            ),
            TokenKind::RightCurly => Precedence::NoPrec.into(),
            TokenKind::LeftSquare => Precedence::Call.postfix(PostfixRule::Index),
            TokenKind::RightSquare => Precedence::NoPrec.into(),
            TokenKind::SemiColon => Precedence::NoPrec.into(),
            TokenKind::Less => Precedence::Relation.postfix(PostfixRule::Binary),
            TokenKind::LessLess => Precedence::Shift.postfix(PostfixRule::Binary),
            TokenKind::LessEqual => Precedence::Relation.postfix(PostfixRule::Binary),
            TokenKind::Greater => Precedence::Relation.postfix(PostfixRule::Binary),
            TokenKind::GreaterGreater => Precedence::Shift.postfix(PostfixRule::Binary),
            TokenKind::GreaterEqual => Precedence::Relation.postfix(PostfixRule::Binary),
            TokenKind::Slash => Precedence::Multiplicative.postfix(PostfixRule::Binary),
            TokenKind::SlashSlash => Precedence::Multiplicative.postfix(PostfixRule::Binary),
            TokenKind::Equal => Precedence::NoPrec.into(),
            TokenKind::EqualEqual => Precedence::Relation.postfix(PostfixRule::Binary),
            TokenKind::Tilde => Precedence::NoPrec.prefix(PrefixRule::Unary).postfix(
                PostfixRule::Binary,
            ),
            TokenKind::TildeEqual => Precedence::Relation.postfix(PostfixRule::Binary),
            TokenKind::Colon => Precedence::Call.postfix(PostfixRule::CallMethod),
            TokenKind::ColonColon => Precedence::NoPrec.into(),
            TokenKind::Dot => Precedence::Call.postfix(PostfixRule::Dot),
            TokenKind::DotDot => Precedence::Concat.postfix(PostfixRule::Right),
            TokenKind::DotDotDot => Precedence::NoPrec.prefix(PrefixRule::DotDotDot),
            TokenKind::Name => Precedence::NoPrec.prefix(PrefixRule::Name),
            TokenKind::String => Precedence::Call.prefix(PrefixRule::String).postfix(
                PostfixRule::CallString,
            ),
            TokenKind::Number => Precedence::NoPrec.prefix(PrefixRule::Number),
            TokenKind::And => Precedence::AndPrec.postfix(PostfixRule::Binary),
            TokenKind::Break => Precedence::NoPrec.into(),
            TokenKind::Do => Precedence::NoPrec.into(),
            TokenKind::Else => Precedence::NoPrec.into(),
            TokenKind::Elseif => Precedence::NoPrec.into(),
            TokenKind::End => Precedence::NoPrec.into(),
            TokenKind::False => Precedence::NoPrec.prefix(PrefixRule::False),
            TokenKind::For => Precedence::NoPrec.into(),
            TokenKind::Function => Precedence::NoPrec.prefix(PrefixRule::Function),
            TokenKind::Global => Precedence::NoPrec.into(),
            TokenKind::Goto => Precedence::NoPrec.into(),
            TokenKind::If => Precedence::NoPrec.into(),
            TokenKind::In => Precedence::NoPrec.into(),
            TokenKind::Local => Precedence::NoPrec.into(),
            TokenKind::Nil => Precedence::NoPrec.prefix(PrefixRule::Nil),
            TokenKind::Not => Precedence::NoPrec.prefix(PrefixRule::Unary),
            TokenKind::Or => Precedence::OrPrec.postfix(PostfixRule::Binary),
            TokenKind::Repeat => Precedence::NoPrec.into(),
            TokenKind::Return => Precedence::NoPrec.into(),
            TokenKind::Then => Precedence::NoPrec.into(),
            TokenKind::True => Precedence::NoPrec.prefix(PrefixRule::True),
            TokenKind::Until => Precedence::NoPrec.into(),
            TokenKind::While => Precedence::NoPrec.into(),
        }
    }
}


/// The kinds of the next `n` tokens that the lexer reads from the position
/// `i` of `s`, on line `line`, where it reads all of them without an error
pub open spec fn kinds_ahead(s: Seq<char>, i: int, line: int, n: nat) -> Option<Seq<TokenKind>>
    decreases n,
{
    if n == 0 {
        Some(Seq::empty())
    } else {
        match lex_step(s, i, line) {
            Ok((k, _b, e, l)) => match kinds_ahead(s, e, l, (n - 1) as nat) {
                Some(r) => Some(seq![k] + r),
                None => None,
            },
            Err(_) => None,
        }
    }
}

/// The expression that the token `t` alone stands for, where it is a
/// literal, `...` or a name
pub open spec fn simple_expression<'a>(t: Token<'a>) -> Option<ast::Expression<'a>> {
    match t.kind {
        TokenKind::Number => Some(ast::Expression::Number(t)),
        TokenKind::String => Some(ast::Expression::String(t)),
        TokenKind::Nil => Some(ast::Expression::Nil),
        TokenKind::True => Some(ast::Expression::True),
        TokenKind::False => Some(ast::Expression::False),
        TokenKind::DotDotDot => Some(ast::Expression::DotDotDot),
        TokenKind::Name => Some(
            ast::Expression::Prefix(ast::PrefixExpression::Var(Box::new(ast::Var::Name(t)))),
        ),
        _ => None,
    }
}

/// Whether a token of kind `k` alone is an expression: a literal, `...` or
/// a name
pub open spec fn simple_kind(k: TokenKind) -> bool {
    ||| k == TokenKind::Number
    ||| k == TokenKind::String
    ||| k == TokenKind::Nil
    ||| k == TokenKind::True
    ||| k == TokenKind::False
    ||| k == TokenKind::DotDotDot
    ||| k == TokenKind::Name
}

/// Whether the kinds `toks` of the tokens ahead start with a token that
/// alone is an expression, followed by one, not the end of the file, that
/// cannot continue an expression
pub open spec fn simple_next(toks: Option<Seq<TokenKind>>) -> bool {
    &&& toks matches Some(t)
    &&& t.len() >= 2
    &&& simple_kind(t[0])
    &&& parse_rule(t[1]).postfix is None
    &&& t[1] != TokenKind::Eof
}

/// There are as many kinds ahead as were asked for
pub proof fn lemma_kinds_ahead_len(s: Seq<char>, i: int, line: int, n: nat)
    requires
        kinds_ahead(s, i, line, n) is Some,
    ensures
        kinds_ahead(s, i, line, n)->0.len() == n,
    decreases n,
{
    if n > 0 {
        if let Ok((k, _b, e, l)) = lex_step(s, i, line) {
            lemma_kinds_ahead_len(s, e, l, (n - 1) as nat);
        }
    }
}

/// The kinds of fewer tokens ahead are the first of those of more
pub proof fn lemma_kinds_ahead_prefix(s: Seq<char>, i: int, line: int, n: nat, m: nat)
    requires
        kinds_ahead(s, i, line, n) is Some,
        m <= n,
    ensures
        kinds_ahead(s, i, line, m) == Some(kinds_ahead(s, i, line, n)->0.take(m as int)),
    decreases m,
{
    if m == 0 {
        assert(kinds_ahead(s, i, line, n)->0.take(0) =~= Seq::<TokenKind>::empty());
    } else {
        if let Ok((k, _b, e, l)) = lex_step(s, i, line) {
            lemma_kinds_ahead_prefix(s, e, l, (n - 1) as nat, (m - 1) as nat);
            let rn = kinds_ahead(s, e, l, (n - 1) as nat)->0;
            let rm = kinds_ahead(s, e, l, (m - 1) as nat)->0;
            lemma_kinds_ahead_len(s, e, l, (n - 1) as nat);
            assert((seq![k] + rn).take(m as int) =~= seq![k] + rm);
        }
    }
}

impl<'a> Parser<'a> {
    /// Internal consistency: the lexer is consistent, and once the current
    /// token is the end of the file the lexer has read the whole source.
    pub closed spec fn wf(&self) -> bool {
        &&& self.lexer.wf()
        &&& (self.current.kind == TokenKind::Eof ==> self.lexer.position()
            == self.lexer.source().len())
    }

    /// The source text being parsed
    pub closed spec fn source(&self) -> Seq<char> {
        self.lexer.source()
    }

    /// The kinds of the next `n` tokens, starting with the current one,
    /// where the lexer reads all of those after it without an error
    pub closed spec fn tokens(&self, n: nat) -> Option<Seq<TokenKind>> {
        if n == 0 {
            Some(Seq::empty())
        } else {
            match kinds_ahead(
                self.lexer.source(),
                self.lexer.position(),
                self.lexer.line(),
                (n - 1) as nat,
            ) {
                Some(r) => Some(seq![self.current.kind] + r),
                None => None,
            }
        }
    }

    /// The kinds ahead start with the current token's, one for each token
    pub proof fn lemma_tokens(&self, n: nat)
        requires
            self.tokens(n) is Some,
        ensures
            self.tokens(n)->0.len() == n,
            n >= 1 ==> self.tokens(n)->0[0] == self.current_token().kind,
    {
        if n >= 1 {
            lemma_kinds_ahead_len(
                self.lexer.source(),
                self.lexer.position(),
                self.lexer.line(),
                (n - 1) as nat,
            );
        }
    }

    /// The kinds of fewer tokens ahead are the first of those of more
    pub proof fn lemma_tokens_prefix(&self, n: nat, m: nat)
        requires
            self.tokens(n) is Some,
            m <= n,
        ensures
            self.tokens(m) == Some(self.tokens(n)->0.take(m as int)),
    {
        if m >= 1 {
            lemma_kinds_ahead_prefix(
                self.lexer.source(),
                self.lexer.position(),
                self.lexer.line(),
                (n - 1) as nat,
                (m - 1) as nat,
            );
            let rn = kinds_ahead(
                self.lexer.source(),
                self.lexer.position(),
                self.lexer.line(),
                (n - 1) as nat,
            )->0;
            let rm = kinds_ahead(
                self.lexer.source(),
                self.lexer.position(),
                self.lexer.line(),
                (m - 1) as nat,
            )->0;
            lemma_kinds_ahead_len(
                self.lexer.source(),
                self.lexer.position(),
                self.lexer.line(),
                (n - 1) as nat,
            );
            assert((seq![self.current.kind] + rn).take(m as int) =~= seq![self.current.kind] + rm);
        } else {
            assert(self.tokens(n)->0.take(0) =~= Seq::<TokenKind>::empty());
        }
    }

    /// At most one count of tokens ahead is a run of `;` and `break` up to
    /// the end of the file
    pub proof fn lemma_trivial_unique(&self, n1: nat, n2: nat)
        requires
            trivial_file(self.tokens(n1)),
            trivial_file(self.tokens(n2)),
        ensures
            n1 == n2,
    {
        self.lemma_tokens(n1);
        self.lemma_tokens(n2);
        if n1 < n2 {
            self.lemma_tokens_prefix(n2, n1);
            let t2 = self.tokens(n2)->0;
            assert(t2[n1 - 1] == self.tokens(n1)->0[n1 - 1]);
        } else if n2 < n1 {
            self.lemma_tokens_prefix(n1, n2);
            let t1 = self.tokens(n1)->0;
            assert(t1[n2 - 1] == self.tokens(n2)->0[n2 - 1]);
        }
    }

    /// The token about to be parsed
    pub closed spec fn current_token(&self) -> Token<'a> {
        self.current
    }

    /// The token most recently consumed
    pub closed spec fn previous_token(&self) -> Token<'a> {
        self.previous
    }

    /// How much input is left: the characters the lexer has not read, plus
    /// one for the current token unless it is the end of the file.
    pub closed spec fn rank(&self) -> nat {
        ((self.lexer.source().len() - self.lexer.position()) + if self.current.kind
            == TokenKind::Eof {
            0int
        } else {
            1int
        }) as nat
    }

    /// `new` is a consistent state reached from `self` without going back.
    pub closed spec fn moved_on(&self, new: &Self) -> bool {
        &&& new.wf()
        &&& new.lexer.source() == self.lexer.source()
        &&& new.rank() <= self.rank()
    }

    /// Construct a new parser from the provided token stream
    pub fn new(lexer: Lexer<'a>) -> (res: Result<Self, ParseError<'a>>)
        requires
            lexer.wf(),
        ensures
            res matches Ok(p) ==> p.wf() && p.source() == lexer.source(),
            match lex_step(lexer.source(), lexer.position(), lexer.line()) {
                Ok((k, b, e, l)) => res matches Ok(p) && p.current_token().kind == k
                    && p.current_token().value@ == lexer.source().subrange(b, e)
                    && p.current_token().line == l && p.previous_token().kind == TokenKind::Eof,
                Err(err) => res matches Err(ParseError::Lex(e2)) && e2 == err,
            },
    {
        let empty = lexer.empty_token();
        let mut lexer = lexer;
        let current = match lexer.next() {
            Ok(t) => t,
            Err(e) => return Err(ParseError::Lex(e)),
        };
        Ok(Self { lexer, current, previous: empty })
    }

    /// Get the next token
    fn advance(&mut self) -> (res: Result<(), ParseError<'a>>)
        requires
            old(self).lexer.wf(),
            old(self).current.kind == TokenKind::Eof ==> old(self).lexer.position() == old(
                self,
            ).lexer.source().len(),
        ensures
            res is Ok ==> old(self).moved_on(final(self)),
            res is Ok ==> final(self).previous == old(self).current,
            res is Ok ==> (old(self).current.kind != TokenKind::Eof ==> final(self).rank() < old(
                self,
            ).rank()),
            old(self).current.kind == TokenKind::Eof ==> res is Ok && final(self).current.kind
                == TokenKind::Eof,
            forall|m: nat|
                m >= 2 && #[trigger] old(self).tokens(m) is Some ==> res is Ok
                    && final(self).tokens((m - 1) as nat) == Some(old(self).tokens(m)->0.drop_first()),
    {
        proof {
            self.lexer.lemma_position_bound();
        }
        self.previous = self.current;
        let ghost l0 = self.lexer;
        self.current = match self.lexer.next() {
            Ok(t) => t,
            Err(e) => {
                proof {
                    assert forall|m: nat| m >= 2 implies !(#[trigger] old(self).tokens(m) is Some) by {
                        assert(kinds_ahead(l0.source(), l0.position(), l0.line(), (m - 1) as nat) is None);
                    }
                }
                return Err(ParseError::Lex(e));
            },
        };
        proof {
            self.lexer.lemma_position_bound();
            assert forall|m: nat| m >= 2 && #[trigger] old(self).tokens(m) is Some implies self.tokens(
                (m - 1) as nat,
            ) == Some(old(self).tokens(m)->0.drop_first()) by {
                let n = (m - 1) as nat;
                let r = kinds_ahead(l0.source(), l0.position(), l0.line(), n)->0;
                let r2 = kinds_ahead(
                    self.lexer.source(),
                    self.lexer.position(),
                    self.lexer.line(),
                    (n - 1) as nat,
                )->0;
                assert(r =~= seq![self.current.kind] + r2);
                assert(old(self).tokens(m)->0.drop_first() =~= r);
            }
        }
        Ok(())
    }

    /// Get the next token and fail if it isn't of the provided type
    fn consume(&mut self, kind: TokenKind, msg: &'static str) -> (res: Result<(), ParseError<'a>>)
        requires
            old(self).wf(),
        ensures
            res is Ok ==> old(self).moved_on(final(self)),
            res is Ok ==> old(self).current.kind == kind,
            res is Ok ==> final(self).previous == old(self).current,
            res is Ok ==> (kind != TokenKind::Eof ==> final(self).rank() < old(self).rank()),
            old(self).current.kind != kind ==> res == Err::<(), ParseError<'a>>(
                ParseError::Syntax { token: old(self).current, message: msg },
            ),
            forall|m: nat|
                m >= 2 && #[trigger] old(self).tokens(m) is Some && old(self).current.kind
                    == kind ==> res is Ok && final(self).tokens((m - 1) as nat) == Some(
                    old(self).tokens(m)->0.drop_first(),
                ),
    {
        if self.current.kind == kind {
            self.advance()?;
            return Ok(());
        }
        Err(self.error_current(msg))
    }

    /// If the next token is of the provided type, consume it and return true,
    /// otherwise don't and return false.
    fn check(&mut self, kind: TokenKind) -> (res: Result<bool, ParseError<'a>>)
        requires
            old(self).wf(),
        ensures
            res is Ok ==> old(self).moved_on(final(self)),
            res == Ok::<bool, ParseError<'a>>(false) ==> *final(self) == *old(self),
            (old(self).current.kind != kind) ==> res == Ok::<bool, ParseError<'a>>(false),
            (old(self).current.kind == kind) ==> res != Ok::<bool, ParseError<'a>>(false),
            res == Ok::<bool, ParseError<'a>>(true) ==> {
                &&& old(self).current.kind == kind
                &&& final(self).previous == old(self).current
                &&& (kind != TokenKind::Eof ==> final(self).rank() < old(self).rank())
            },
            old(self).current.kind == TokenKind::Eof ==> (kind == TokenKind::Eof <==> res
                == Ok::<bool, ParseError<'a>>(true)) && res is Ok && final(self).current.kind
                == TokenKind::Eof,
            forall|m: nat|
                m >= 2 && #[trigger] old(self).tokens(m) is Some && old(self).current.kind
                    == kind ==> res == Ok::<bool, ParseError<'a>>(true) && final(self).tokens(
                    (m - 1) as nat,
                ) == Some(old(self).tokens(m)->0.drop_first()),
    {
        if self.current.kind == kind {
            self.advance()?;
            return Ok(true);
        }
        Ok(false)
    }

    /// A syntax error referring to the provided token
    fn error_at(&self, token: Token<'a>, msg: &'static str) -> (e: ParseError<'a>)
        ensures
            e == (ParseError::Syntax { token, message: msg }),
    {
        ParseError::Syntax { token, message: msg }
    }

    /// A syntax error at the current token
    fn error_current(&self, msg: &'static str) -> (e: ParseError<'a>)
        ensures
            e == (ParseError::Syntax { token: self.current, message: msg }),
    {
        self.error_at(self.current, msg)
    }

    /// A syntax error at the most recently consumed token
    fn error(&self, msg: &'static str) -> (e: ParseError<'a>)
        ensures
            e == (ParseError::Syntax { token: self.previous, message: msg }),
    {
        self.error_at(self.previous, msg)
    }

    /// Run the parser for a full source file and get the output tree.
    pub fn file(self) -> (res: Result<ast::Block<'a>, ParseError<'a>>)
        requires
            self.wf(),
        ensures
            self.current_token().kind == TokenKind::Eof ==> (res matches Ok(b)
                && b.statements@.len() == 0 && b.ret_stat is None),
            res matches Ok(b) ==> block_bound(b),
            forall|n: nat|
                trivial_file(#[trigger] self.tokens(n)) ==> (res matches Ok(b) && trivial_block(
                    b,
                    self.tokens(n)->0,
                )),
    {
        let mut this = self;
        let ret = this.block()?;
        if !this.check(TokenKind::Eof)? {
            return Err(
                this.error_current(
                    "Unexpected content after file content (return statements terminate a source file)",
                ),
            );
        }
        Ok(ret)
    }

    /// Parse a block (= function body, file, etc)
    #[verifier::spinoff_prover]
    #[verifier::rlimit(60)]
    fn block(&mut self) -> (res: Result<ast::Block<'a>, ParseError<'a>>)
        requires
            old(self).wf(),
        ensures
            res matches Ok(b) ==> block_bound(b),
            res is Ok ==> old(self).moved_on(final(self)),
            old(self).current.kind == TokenKind::Eof ==> (res matches Ok(b)
                && b.statements@.len() == 0 && b.ret_stat is None && final(self).current.kind
                == TokenKind::Eof),
            ends_block(old(self).current.kind) ==> (res matches Ok(b) && b.statements@.len() == 0
                && b.ret_stat is None && *final(self) == *old(self)),
            forall|n: nat|
                trivial_file(#[trigger] old(self).tokens(n)) ==> (res matches Ok(b) && trivial_block(
                    b,
                    old(self).tokens(n)->0,
                ) && final(self).current_token().kind == TokenKind::Eof),
        decreases old(self).rank(), 6nat,
    {
        let ghost o = *self;
        let ghost good = exists|n: nat| trivial_file(#[trigger] o.tokens(n));
        let ghost n0 = choose|n: nat| trivial_file(#[trigger] o.tokens(n));
        let ghost t0 = o.tokens(n0)->0;
        proof {
            if good {
                self.lemma_tokens(n0);
            }
        }
        let mut content = vec![];
        loop
            invariant
                good ==> trivial_file(o.tokens(n0)) && t0 == o.tokens(n0)->0
                    && t0.len() == n0 && content@.len() < n0 && self.tokens(
                    (n0 - content@.len()) as nat,
                ) == Some(t0.skip(content@.len() as int)) && forall|i: int|
                    0 <= i < content@.len() ==> #[trigger] content@[i] == trivial_statement::<'a>(
                        t0[i],
                    ),
                old(self).moved_on(self),
                o == *old(self),
                good == exists|n: nat| trivial_file(#[trigger] o.tokens(n)),
                statements_bound(content@),
                ends_block(old(self).current.kind) ==> *self == *old(self) && content@.len() == 0,
                old(self).current.kind == TokenKind::Eof ==> self.current.kind == TokenKind::Eof
                    && content@.len() == 0,
            ensures
                good ==> self.current.kind == TokenKind::Eof && content@.len() == n0 - 1,
            decreases self.rank(),
        {
            let ghost c = content@.len();
            proof {
                if good {
                    self.lemma_tokens((n0 - c) as nat);
                    assert(t0.skip(c as int)[0] == t0[c as int]);
                    if n0 - c >= 2 {
                        self.lemma_tokens_prefix((n0 - c) as nat, 2);
                    } else {
                        assert(t0[c as int] == TokenKind::Eof);
                    }
                }
            }
            if self.check(TokenKind::Eof)? {
                break;
            }
            let st = match self.statement() {
                Ok(x) => x,
                Err(e) => {
                    proof {
                        assert(!good);
                        assert forall|n: nat| !trivial_file(#[trigger] o.tokens(n)) by {
                            if trivial_file(o.tokens(n)) {
                                assert(good);
                            }
                        }
                    }
                    return Err(e);
                },
            };
            match st {
                Some(s) => {
                    content.push(s);
                    proof {
                        if good {
                            assert(t0.skip(c as int).drop_first() =~= t0.skip(c + 1 as int));
                        }
                    }
                },
                None => break,
            }
        }
        let mut ret = None;
        proof {
            if good {
                assert(self.current.kind == TokenKind::Eof);
            }
        }
        if self.check(TokenKind::Return)? {
            ret = Some(self.return_statement()?);
        }
        proof {
            assert forall|n: nat| trivial_file(#[trigger] o.tokens(n)) implies n == n0 by {
                o.lemma_trivial_unique(n, n0);
            }
        }
        Ok(ast::Block { statements: content, ret_stat: ret })
    }

    /// Try to get a statement, if possible, otherwise return None
    fn statement(&mut self) -> (res: Result<Option<ast::Statement<'a>>, ParseError<'a>>)
        requires
            old(self).wf(),
        ensures
            res matches Ok(Some(s)) ==> statement_bound(s),
            res is Ok ==> old(self).moved_on(final(self)),
            res matches Ok(Some(_)) ==> final(self).rank() < old(self).rank(),
            res matches Ok(None) ==> *final(self) == *old(self),
            res matches Ok(Some(s)) ==> statement_for(old(self).current.kind, s),
            res matches Ok(None) <==> !keyword_statement(old(self).current.kind) && parse_rule(
                old(self).current.kind,
            ).prefix is None,
            old(self).tokens(2) is Some && old(self).current_token().kind == TokenKind::SemiColon
                ==> res == Ok::<Option<ast::Statement<'a>>, ParseError<'a>>(
                Some(ast::Statement::Empty),
            ),
            old(self).tokens(2) is Some && old(self).current_token().kind == TokenKind::Break
                ==> res == Ok::<Option<ast::Statement<'a>>, ParseError<'a>>(
                Some(ast::Statement::Break),
            ),
            forall|m: nat|
                m >= 2 && #[trigger] old(self).tokens(m) is Some && (old(self).current_token().kind
                    == TokenKind::SemiColon || old(self).current_token().kind == TokenKind::Break)
                    ==> final(self).tokens((m - 1) as nat) == Some(old(self).tokens(m)->0.drop_first()),
        decreases old(self).rank(), 5nat,
    {
        let kind = self.current.kind;
        match kind {
            TokenKind::SemiColon => {
                self.advance()?;
                Ok(Some(ast::Statement::Empty))
            },
            TokenKind::ColonColon => {
                self.advance()?;
                Ok(Some(ast::Statement::Label(self.label()?)))
            },
            TokenKind::Break => {
                self.advance()?;
                Ok(Some(ast::Statement::Break))
            },
            TokenKind::Goto => {
                self.advance()?;
                self.consume(TokenKind::Name, "Expected Name after goto")?;
                Ok(Some(ast::Statement::Goto(self.previous)))
            },
            TokenKind::Do => {
                self.advance()?;
                let block = self.block()?;
                self.consume(TokenKind::End, "Expected `end` after block")?;
                Ok(Some(ast::Statement::Block(block)))
            },
            TokenKind::While => {
                self.advance()?;
                let expr = match self.expression()? {
                    Some(e) => e,
                    None => return Err(self.error("Expected while loop condition expression")),
                };
                self.consume(TokenKind::Do, "Expected `do` after while loop condition")?;
                let block = self.block()?;
                self.consume(TokenKind::End, "Expected `end` after block")?;
                Ok(Some(ast::Statement::While { expr, block }))
            },
            TokenKind::Repeat => {
                self.advance()?;
                let block = self.block()?;
                self.consume(TokenKind::Until, "Expected `until` after repeat loop body")?;
                let expr = match self.expression()? {
                    Some(e) => e,
                    None => return Err(self.error("Expected repeat loop condition expression")),
                };
                Ok(Some(ast::Statement::Repeat { block, expr }))
            },
            TokenKind::If => {
                self.advance()?;
                Ok(Some(self.if_statement()?))
            },
            TokenKind::For => {
                self.advance()?;
                Ok(Some(self.for_statement()?))
            },
            TokenKind::Function => {
                self.advance()?;
                let name = self.function_name()?;
                let body = self.function_body()?;
                Ok(Some(ast::Statement::Function { name, body, vis: None }))
            },
            TokenKind::Local => {
                self.advance()?;
                Ok(Some(self.local()?))
            },
            TokenKind::Global => {
                self.advance()?;
                Ok(Some(self.global()?))
            },
            _ => match self.parse_precedence(Precedence::Call)? {
                Some(expr) => match expr {
                    ast::Expression::Prefix(pre) => Ok(Some(self.prefix_statement(pre)?)),
                    _ => Err(self.error("Unexpected expression")),
                },
                None => Ok(None),
            },
        }
    }

    /// Parse a return statement
    fn return_statement(&mut self) -> (res: Result<ast::ReturnStatement<'a>, ParseError<'a>>)
        requires
            old(self).wf(),
        ensures
            res matches Ok(r) ==> exprs_bound(r.exprs@),
            res is Ok ==> old(self).moved_on(final(self)),
            parse_rule(old(self).current_token().kind).prefix is None && old(
                self,
            ).current_token().kind != TokenKind::SemiColon ==> (res matches Ok(r) && r.exprs@.len()
                == 0),
            simple_next(old(self).tokens(2)) && old(self).tokens(2)->0[1] != TokenKind::Comma && old(
                self,
            ).tokens(2)->0[1] != TokenKind::SemiColon ==> (res matches Ok(r) && r.exprs@ == seq![
                simple_expression(old(self).current_token())->0,
            ]),
        decreases old(self).rank(), 4nat,
    {
        let content = match self.comma_expressions()? {
            Some(c) => c,
            None => vec![],
        };
        self.check(TokenKind::SemiColon)?;
        Ok(ast::ReturnStatement { exprs: content })
    }

    /// Parse a goto label declaration
    fn label(&mut self) -> (res: Result<ast::Label<'a>, ParseError<'a>>)
        requires
            old(self).wf(),
        ensures
            res is Ok ==> old(self).moved_on(final(self)),
            res matches Ok(l) ==> l.name.kind == TokenKind::Name && l.name == old(
                self,
            ).current_token(),
            old(self).tokens(3) matches Some(t) && t[0] == TokenKind::Name && t[1]
                == TokenKind::ColonColon ==> res is Ok,
    {
        proof {
            if self.tokens(3) is Some {
                self.lemma_tokens(3);
            }
        }
        self.consume(TokenKind::Name, "Expected label name after `::`")?;
        let ret = ast::Label { name: self.previous };
        proof {
            if self.tokens(2) is Some {
                self.lemma_tokens(2);
            }
        }
        self.consume(TokenKind::ColonColon, "Expected `::` after label name")?;
        Ok(ret)
    }

    /// Parse an assignment or function call statement
    fn prefix_statement(&mut self, pre: ast::PrefixExpression<'a>) -> (res: Result<
        ast::Statement<'a>,
        ParseError<'a>,
    >)
        requires
            prefix_bound(pre),
            old(self).wf(),
        ensures
            res matches Ok(s) ==> statement_bound(s),
            res is Ok ==> old(self).moved_on(final(self)),
            res matches Ok(s) ==> s is Assign || s is Call,
            pre is Expr ==> res == Err::<ast::Statement<'a>, ParseError<'a>>(
                ParseError::Syntax {
                    token: old(self).previous,
                    message: "Unexpected parenthesised expression",
                },
            ),
            pre is Call ==> res == Ok::<ast::Statement<'a>, ParseError<'a>>(
                ast::Statement::Call(pre->Call_0),
            ),
            old(self).tokens(3) matches Some(t) && t[0] == TokenKind::Equal && simple_next(
                Some(t.drop_first()),
            ) && t[2] != TokenKind::Comma && pre is Var ==> (res matches Ok(
                ast::Statement::Assign { vars, exps },
            ) && vars@ == seq![*pre->Var_0] && exps@.len() == 1),
        decreases old(self).rank(), 5nat,
    {
        match pre {
            ast::PrefixExpression::Var(var) => self.assignment(*var),
            ast::PrefixExpression::Call(call) => Ok(ast::Statement::Call(call)),
            ast::PrefixExpression::Expr(_) => Err(self.error("Unexpected parenthesised expression")),
        }
    }

    /// Parse an assignment statement
    fn assignment(&mut self, lhs: ast::Var<'a>) -> (res: Result<ast::Statement<'a>, ParseError<'a>>)
        requires
            var_bound(lhs),
            old(self).wf(),
        ensures
            res matches Ok(s) ==> statement_bound(s),
            res is Ok ==> old(self).moved_on(final(self)),
            res matches Ok(s) ==> s matches ast::Statement::Assign { vars, .. } && vars@.len() >= 1
                && vars@[0] == lhs,
            old(self).tokens(3) matches Some(t) && t[0] == TokenKind::Equal && simple_next(
                Some(t.drop_first()),
            ) && t[2] != TokenKind::Comma ==> (res matches Ok(ast::Statement::Assign { vars, exps })
                && vars@.len() == 1 && exps@.len() == 1),
        decreases old(self).rank(), 4nat,
    {
        proof {
            if self.tokens(3) is Some {
                self.lemma_tokens(3);
            }
        }
        let mut vars = vec![lhs];
        if self.check(TokenKind::Comma)? {
            self.comma_vars(&mut vars)?;
        }
        self.consume(TokenKind::Equal, "Expected `=` in assignment")?;
        let rhs = match self.comma_expressions()? {
            Some(r) => r,
            None => vec![],
        };
        Ok(ast::Statement::Assign { vars, exps: rhs })
    }

    /// Parse an if statement and all elseif/else blocks
    fn if_statement(&mut self) -> (res: Result<ast::Statement<'a>, ParseError<'a>>)
        requires
            old(self).wf(),
        ensures
            res matches Ok(s) ==> statement_bound(s),
            res is Ok ==> old(self).moved_on(final(self)),
            res matches Ok(s) ==> s is If,
            old(self).tokens(4) matches Some(t) && t[1] == TokenKind::Then && t[2]
                == TokenKind::End && simple_next(old(self).tokens(2)) ==> (res matches Ok(
                ast::Statement::If { expr, block, elseif, else_block },
            ) && expr == simple_expression(old(self).current_token())->0
                && block.statements@.len() == 0 && block.ret_stat is None && elseif@.len() == 0
                && else_block is None),
        decreases old(self).rank(), 3nat,
    {
        let ghost plain = (old(self).tokens(4) matches Some(t) && t[1] == TokenKind::Then && t[2]
            == TokenKind::End && simple_next(old(self).tokens(2)));
        let expr = match self.expression()? {
            Some(e) => e,
            None => return Err(self.error("Expected if condition")),
        };
        proof {
            if plain {
                self.lemma_tokens(3);
            }
        }
        self.consume(TokenKind::Then, "Expected `then` after if condition")?;
        proof {
            if plain {
                self.lemma_tokens(2);
            }
        }
        let block = self.block()?;
        let mut elseif: Vec<(ast::Expression<'a>, ast::Block<'a>)> = vec![];
        loop
            invariant
                plain == (old(self).tokens(4) matches Some(t) && t[1] == TokenKind::Then && t[2]
                    == TokenKind::End && simple_next(old(self).tokens(2))),
                plain ==> self.current.kind == TokenKind::End && self.tokens(2) is Some
                    && elseif@.len() == 0 && expr == simple_expression(old(self).current)->0
                    && block.statements@.len() == 0 && block.ret_stat is None,
                old(self).moved_on(self),
                self.rank() < old(self).rank(),
                well_bound(expr),
                block_bound(block),
                forall|i: int|
                    0 <= i < elseif@.len() ==> well_bound((#[trigger] elseif@[i]).0) && block_bound(
                        elseif@[i].1,
                    ),
            decreases self.rank(),
        {
            if !self.check(TokenKind::Elseif)? {
                break;
            }
            let expr = match self.expression()? {
                Some(e) => e,
                None => return Err(self.error("Expected elseif condition")),
            };
            self.consume(TokenKind::Then, "Expected `then` after elseif condition")?;
            let block = self.block()?;
            elseif.push((expr, block));
        }
        let else_block = if self.check(TokenKind::Else)? {
            Some(self.block()?)
        } else {
            None
        };
        self.consume(TokenKind::End, "Expected `end` after if statement")?;
        Ok(ast::Statement::If { expr, block, elseif, else_block })
    }

    /// Parse a for or for-each statement
    fn for_statement(&mut self) -> (res: Result<ast::Statement<'a>, ParseError<'a>>)
        requires
            old(self).wf(),
        ensures
            res matches Ok(s) ==> statement_bound(s),
            res is Ok ==> old(self).moved_on(final(self)),
            res matches Ok(s) ==> s is For || s is ForEach,
            old(self).tokens(8) matches Some(t) && t[0] == TokenKind::Name && t[1]
                == TokenKind::Equal && simple_kind(t[2]) && t[3] == TokenKind::Comma && simple_kind(
                t[4],
            ) && t[5] == TokenKind::Do && t[6] == TokenKind::End ==> (res matches Ok(
                ast::Statement::For { name, step, .. },
            ) && name == old(self).current_token() && step is None),
            old(self).tokens(6) matches Some(t) && t[0] == TokenKind::Name && t[1] == TokenKind::In
                && simple_kind(t[2]) && t[3] == TokenKind::Do && t[4] == TokenKind::End ==> (
            res matches Ok(ast::Statement::ForEach { names, exprs, .. }) && names@ == seq![
                old(self).current_token(),
            ] && exprs@.len() == 1),
        decreases old(self).rank(), 6nat,
    {
        let ghost numeric = (old(self).tokens(8) matches Some(t) && t[0] == TokenKind::Name && t[1]
            == TokenKind::Equal && simple_kind(t[2]) && t[3] == TokenKind::Comma && simple_kind(
            t[4],
        ) && t[5] == TokenKind::Do && t[6] == TokenKind::End);
        let ghost each = (old(self).tokens(6) matches Some(t) && t[0] == TokenKind::Name && t[1]
            == TokenKind::In && simple_kind(t[2]) && t[3] == TokenKind::Do && t[4]
            == TokenKind::End);
        proof {
            if numeric {
                self.lemma_tokens(8);
                self.lemma_tokens_prefix(8, 2);
            }
            if each {
                self.lemma_tokens(6);
                self.lemma_tokens_prefix(6, 2);
            }
        }
        let names = match self.comma_names()? {
            Some(n) => n,
            None => return Err(self.error("Expected list of names for for loop variables")),
        };
        proof {
            if numeric {
                self.lemma_tokens(7);
            }
            if each {
                self.lemma_tokens(5);
            }
        }
        if names.len() == 1 {
            if self.check(TokenKind::Equal)? {
                proof {
                    if numeric {
                        self.lemma_tokens(6);
                    }
                }
                return self.for_numeric(names[0]);
            }
        }
        if self.check(TokenKind::In)? {
            proof {
                if each {
                    self.lemma_tokens(4);
                    self.lemma_tokens_prefix(4, 2);
                }
            }
            return self.for_each(names);
        }
        if names.len() == 1 {
            Err(self.error("Expected `in` or `=` after for loop variable"))
        } else {
            Err(self.error("Expected `in` after for loop variables"))
        }
    }

    /// Parse a for-each statement
    fn for_each(&mut self, names: Vec<Token<'a>>) -> (res: Result<ast::Statement<'a>, ParseError<'a>>)
        requires
            old(self).wf(),
        ensures
            res matches Ok(s) ==> statement_bound(s),
            res is Ok ==> old(self).moved_on(final(self)),
            res matches Ok(s) ==> s matches ast::Statement::ForEach { names: n, .. } && n@ == names@,
            old(self).tokens(4) matches Some(t) && t[1] == TokenKind::Do && t[2] == TokenKind::End
                && simple_next(old(self).tokens(2)) ==> (res matches Ok(
                ast::Statement::ForEach { exprs, block, .. },
            ) && exprs@ == seq![simple_expression(old(self).current_token())->0]
                && block.statements@.len() == 0 && block.ret_stat is None),
        decreases old(self).rank(), 4nat,
    {
        let ghost plain = (old(self).tokens(4) matches Some(t) && t[1] == TokenKind::Do && t[2]
            == TokenKind::End && simple_next(old(self).tokens(2)));
        let exprs = match self.comma_expressions()? {
            Some(e) => e,
            None => return Err(self.error("Expected expressions to loop over for for-each loop")),
        };
        proof {
            if plain {
                self.lemma_tokens(3);
            }
        }
        self.consume(TokenKind::Do, "Expected `do` after for-each loop expressions")?;
        proof {
            if plain {
                self.lemma_tokens(2);
            }
        }
        let block = self.block()?;
        self.consume(TokenKind::End, "Expected `end` after for-each loop")?;
        Ok(ast::Statement::ForEach { names, exprs, block })
    }

    /// Parse a numeric for loop
    fn for_numeric(&mut self, name: Token<'a>) -> (res: Result<ast::Statement<'a>, ParseError<'a>>)
        requires
            old(self).wf(),
        ensures
            res matches Ok(s) ==> statement_bound(s),
            res is Ok ==> old(self).moved_on(final(self)),
            res matches Ok(s) ==> s matches ast::Statement::For { name: n, .. } && n == name,
            old(self).tokens(6) matches Some(t) && simple_kind(t[0]) && t[1] == TokenKind::Comma
                && simple_kind(t[2]) && t[3] == TokenKind::Do && t[4] == TokenKind::End ==> (
            res matches Ok(ast::Statement::For { initial, step, block, .. }) && initial
                == simple_expression(old(self).current_token())->0 && step is None
                && block.statements@.len() == 0 && block.ret_stat is None),
        decreases old(self).rank(), 3nat,
    {
        let ghost plain = (old(self).tokens(6) matches Some(t) && simple_kind(t[0]) && t[1]
            == TokenKind::Comma && simple_kind(t[2]) && t[3] == TokenKind::Do && t[4]
            == TokenKind::End);
        proof {
            if plain {
                self.lemma_tokens(6);
                self.lemma_tokens_prefix(6, 2);
            }
        }
        let initial = match self.expression()? {
            Some(e) => e,
            None => return Err(self.error("Expected for loop initial bound")),
        };
        proof {
            if plain {
                self.lemma_tokens(5);
            }
        }
        self.consume(TokenKind::Comma, "Expected comma after initial expression")?;
        proof {
            if plain {
                self.lemma_tokens(4);
                self.lemma_tokens_prefix(4, 2);
            }
        }
        let limit = match self.expression()? {
            Some(e) => e,
            None => return Err(self.error("Expected for loop limit")),
        };
        proof {
            if plain {
                self.lemma_tokens(3);
            }
        }
        let step = if self.check(TokenKind::Comma)? {
            match self.expression()? {
                Some(e) => Some(e),
                None => return Err(self.error("Expected for loop step")),
            }
        } else {
            None
        };
        self.consume(TokenKind::Do, "Expected `do` after for loop expressions")?;
        proof {
            if plain {
                self.lemma_tokens(2);
            }
        }
        let block = self.block()?;
        self.consume(TokenKind::End, "Expected `end` after for loop")?;
        Ok(ast::Statement::For { name, initial, limit, step, block })
    }

    /// Parse a function name
    fn function_name(&mut self) -> (res: Result<ast::FunctionName<'a>, ParseError<'a>>)
        requires
            old(self).wf(),
        ensures
            res is Ok ==> old(self).moved_on(final(self)),
            res is Ok ==> final(self).rank() < old(self).rank(),
            res matches Ok(n) ==> n.names@.len() >= 1 && n.names@[0] == old(self).current_token(),
            old(self).tokens(2) matches Some(t) && t[0] == TokenKind::Name && t[1]
                != TokenKind::Dot && t[1] != TokenKind::Colon ==> (res matches Ok(n)
                && n.names@ == seq![old(self).current_token()] && n.method is None
                && final(self).current_token().kind == old(self).tokens(2)->0[1]),
    {
        proof {
            if self.tokens(2) is Some {
                self.lemma_tokens(2);
            }
        }
        self.consume(TokenKind::Name, "Expected function name")?;
        proof {
            if self.tokens(1) is Some {
                self.lemma_tokens(1);
            }
        }
        let mut names = vec![self.previous];
        let ghost r0 = self.rank();
        let ghost single = (old(self).tokens(2) matches Some(t) && t[0] == TokenKind::Name && t[1]
            != TokenKind::Dot && t[1] != TokenKind::Colon);
        loop
            invariant
                old(self).moved_on(self),
                self.rank() <= r0,
                r0 < old(self).rank(),
                names@.len() >= 1,
                names@[0] == old(self).current,
                single == (old(self).tokens(2) matches Some(t) && t[0] == TokenKind::Name && t[1]
                    != TokenKind::Dot && t[1] != TokenKind::Colon),
                single ==> names@.len() == 1 && self.current.kind == old(self).tokens(2)->0[1],
            decreases self.rank(),
        {
            if !self.check(TokenKind::Dot)? {
                break;
            }
            self.consume(TokenKind::Name, "Expected name after `.`")?;
            names.push(self.previous);
        }
        let method = if self.check(TokenKind::Colon)? {
            self.consume(TokenKind::Name, "Expected method name after `:`")?;
            Some(self.previous)
        } else {
            None
        };
        Ok(ast::FunctionName { names, method })
    }

    /// Parse the body of a function
    fn function_body(&mut self) -> (res: Result<ast::Function<'a>, ParseError<'a>>)
        requires
            old(self).wf(),
        ensures
            res matches Ok(f) ==> block_bound(f.body),
            res is Ok ==> old(self).moved_on(final(self)),
            old(self).tokens(4) matches Some(t) && t[0] == TokenKind::LeftParen && t[1]
                == TokenKind::RightParen && t[2] == TokenKind::End ==> (res matches Ok(f)
                && f.parameters.names@.len() == 0 && f.parameters.var_name is None
                && f.body.statements@.len() == 0 && f.body.ret_stat is None),
        decreases old(self).rank(), 3nat,
    {
        proof {
            if self.tokens(4) is Some {
                self.lemma_tokens(4);
            }
        }
        self.consume(TokenKind::LeftParen, "Expected `(` at start of function parameters")?;
        proof {
            if self.tokens(3) is Some {
                self.lemma_tokens(3);
            }
        }
        let parameters = self.parameters()?;
        self.consume(TokenKind::RightParen, "Expected `)` after function parameters")?;
        proof {
            if self.tokens(2) is Some {
                self.lemma_tokens(2);
            }
        }
        let body = self.block()?;
        self.consume(TokenKind::End, "Expected `end` after function body")?;
        Ok(ast::Function { parameters, body })
    }

    /// Parse function parameters
    fn parameters(&mut self) -> (res: Result<ast::ParameterList<'a>, ParseError<'a>>)
        requires
            old(self).wf(),
        ensures
            res is Ok ==> old(self).moved_on(final(self)),
            old(self).current_token().kind == TokenKind::RightParen ==> (res matches Ok(p)
                && p.names@.len() == 0 && p.var_name is None && *final(self) == *old(self)),
            res is Ok && old(self).current_token().kind != TokenKind::RightParen
                ==> final(self).rank() < old(self).rank(),
            res matches Ok(p) ==> (forall|i: int|
                0 <= i < p.names@.len() ==> (#[trigger] p.names@[i]).kind == TokenKind::Name),
            res matches Ok(p) ==> (p.names@.len() > 0 ==> p.names@[0] == old(self).current_token()),
            res matches Ok(p) ==> (p.var_name matches Some(Some(t)) ==> t.kind == TokenKind::Name),
    {
        let mut names = vec![];
        let mut var_name = None;
        if self.current.kind == TokenKind::RightParen {
            return Ok(ast::ParameterList { names, var_name });
        }
        let ghost mut started = false;
        loop
            invariant_except_break
                var_name is None,
            invariant
                old(self).moved_on(self),
                old(self).current.kind != TokenKind::RightParen,
                !started ==> *self == *old(self) && names@.len() == 0 && var_name is None,
                started && var_name is None ==> names@.len() > 0,
                started ==> self.rank() < old(self).rank(),
                forall|i: int| 0 <= i < names@.len() ==> (#[trigger] names@[i]).kind == TokenKind::Name,
                names@.len() > 0 ==> names@[0] == old(self).current,
                var_name matches Some(Some(t)) ==> t.kind == TokenKind::Name,
            ensures
                started,
            decreases self.rank(),
        {
            if self.check(TokenKind::DotDotDot)? {
                proof {
                    started = true;
                }
                var_name = Some(
                    if self.check(TokenKind::Name)? {
                        Some(self.previous)
                    } else {
                        None
                    },
                );
                break;
            }
            self.consume(TokenKind::Name, "Expected parameter name")?;
            names.push(self.previous);
            proof {
                started = true;
            }
            if !self.check(TokenKind::Comma)? {
                break;
            }
        }
        Ok(ast::ParameterList { names, var_name })
    }

    /// Parse an attribute `<name>`, if one is next
    fn attribute(&mut self) -> (res: Result<Option<ast::Attribute<'a>>, ParseError<'a>>)
        requires
            old(self).wf(),
        ensures
            res is Ok ==> old(self).moved_on(final(self)),
            old(self).current_token().kind != TokenKind::Less ==> res == Ok::<
                Option<ast::Attribute<'a>>,
                ParseError<'a>,
            >(None) && *final(self) == *old(self),
            old(self).current_token().kind == TokenKind::Less ==> !(res matches Ok(None)),
            res matches Ok(Some(a)) ==> a.name.kind == TokenKind::Name && final(self).rank() < old(
                self,
            ).rank(),
            old(self).tokens(4) matches Some(t) && t[0] == TokenKind::Less && t[1]
                == TokenKind::Name && t[2] == TokenKind::Greater ==> res is Ok,
    {
        proof {
            if self.tokens(4) is Some {
                self.lemma_tokens(4);
            }
        }
        if self.check(TokenKind::Less)? {
            proof {
                if self.tokens(3) is Some {
                    self.lemma_tokens(3);
                }
            }
            self.consume(TokenKind::Name, "Expected attribute name")?;
            let name = ast::Attribute { name: self.previous };
            proof {
                if self.tokens(2) is Some {
                    self.lemma_tokens(2);
                }
            }
            self.consume(TokenKind::Greater, "Expected `>` after attribute name")?;
            Ok(Some(name))
        } else {
            Ok(None)
        }
    }

    /// Parse a statement beginning with `local`
    fn local(&mut self) -> (res: Result<ast::Statement<'a>, ParseError<'a>>)
        requires
            old(self).wf(),
        ensures
            res matches Ok(s) ==> statement_bound(s),
            res is Ok ==> old(self).moved_on(final(self)),
            res matches Ok(s) ==> statement_for(TokenKind::Local, s),
            old(self).tokens(2) matches Some(t) && t[0] == TokenKind::Name && t[1]
                != TokenKind::Less && t[1] != TokenKind::Comma && t[1] != TokenKind::Equal ==> (
            res matches Ok(ast::Statement::Declare { vis: ast::Visibility::Local, names, exprs })
                && names.attrib is None && names.names@.len() == 1 && names.names@[0] == (
                old(self).current_token(),
                None::<ast::Attribute<'a>>,
            ) && exprs@.len() == 0),
        decreases old(self).rank(), 5nat,
    {
        if self.check(TokenKind::Function)? {
            let name = self.function_name()?;
            let body = self.function_body()?;
            return Ok(
                ast::Statement::Function { name, body, vis: Some(ast::Visibility::Local) },
            );
        }
        let attrib = self.attribute()?;
        let names = self.attrib_names()?;
        let exprs = if self.check(TokenKind::Equal)? {
            match self.comma_expressions()? {
                Some(e) => e,
                None => return Err(self.error("Expected expression after `=`")),
            }
        } else {
            vec![]
        };
        Ok(
            ast::Statement::Declare {
                vis: ast::Visibility::Local,
                names: ast::AttributeNameList { attrib, names },
                exprs,
            },
        )
    }

    /// Parse a statement beginning with `global`
    fn global(&mut self) -> (res: Result<ast::Statement<'a>, ParseError<'a>>)
        requires
            old(self).wf(),
        ensures
            res matches Ok(s) ==> statement_bound(s),
            res is Ok ==> old(self).moved_on(final(self)),
            res matches Ok(s) ==> statement_for(TokenKind::Global, s),
            old(self).tokens(2) matches Some(t) && t[0] == TokenKind::Name && t[1]
                != TokenKind::Less && t[1] != TokenKind::Comma && t[1] != TokenKind::Equal ==> (
            res matches Ok(ast::Statement::Declare { vis: ast::Visibility::Global, names, exprs })
                && names.attrib is None && names.names@.len() == 1 && names.names@[0] == (
                old(self).current_token(),
                None::<ast::Attribute<'a>>,
            ) && exprs@.len() == 0),
        decreases old(self).rank(), 5nat,
    {
        if self.check(TokenKind::Function)? {
            let name = self.function_name()?;
            let body = self.function_body()?;
            return Ok(
                ast::Statement::Function { name, body, vis: Some(ast::Visibility::Global) },
            );
        }
        let attrib = self.attribute()?;
        if self.check(TokenKind::Star)? {
            return Ok(ast::Statement::GlobalCollective { attrib });
        }
        let names = self.attrib_names()?;
        let exprs = if self.check(TokenKind::Equal)? {
            match self.comma_expressions()? {
                Some(e) => e,
                None => return Err(self.error("Expected expression after `=`")),
            }
        } else {
            vec![]
        };
        Ok(
            ast::Statement::Declare {
                vis: ast::Visibility::Global,
                names: ast::AttributeNameList { attrib, names },
                exprs,
            },
        )
    }

    /// Parse one name and its optional attribute within a `local` or `global`
    fn attrib_name(&mut self) -> (res: Result<(Token<'a>, Option<ast::Attribute<'a>>), ParseError<'a>>)
        requires
            old(self).wf(),
        ensures
            res is Ok ==> old(self).moved_on(final(self)),
            res is Ok ==> final(self).rank() < old(self).rank(),
            res matches Ok((name, _)) ==> name == old(self).current_token() && name.kind
                == TokenKind::Name,
            old(self).tokens(2) matches Some(t) && t[0] == TokenKind::Name && t[1]
                != TokenKind::Less ==> (res matches Ok((_, None)) && final(self).current_token().kind
                == old(self).tokens(2)->0[1]),
            old(self).tokens(5) matches Some(t) && t[0] == TokenKind::Name && t[1]
                == TokenKind::Less && t[2] == TokenKind::Name && t[3] == TokenKind::Greater
                ==> res matches Ok((_, Some(_))),
    {
        proof {
            if self.tokens(2) is Some {
                self.lemma_tokens(2);
            }
            if self.tokens(5) is Some {
                self.lemma_tokens(5);
            }
        }
        self.consume(TokenKind::Name, "Expected variable name")?;
        let name = self.previous;
        proof {
            if self.tokens(1) is Some {
                self.lemma_tokens(1);
            }
            if self.tokens(4) is Some {
                self.lemma_tokens(4);
            }
        }
        let attrib = self.attribute()?;
        Ok((name, attrib))
    }

    /// Parse the names and attributes within a `local` or `global`
    fn attrib_names(&mut self) -> (res: Result<Vec<(Token<'a>, Option<ast::Attribute<'a>>)>, ParseError<'a>>)
        requires
            old(self).wf(),
        ensures
            res is Ok ==> old(self).moved_on(final(self)),
            res matches Ok(v) ==> {
                &&& v@.len() >= 1
                &&& v@[0].0 == old(self).current_token()
                &&& forall|i: int| 0 <= i < v@.len() ==> (#[trigger] v@[i]).0.kind == TokenKind::Name
                &&& final(self).rank() < old(self).rank()
            },
            old(self).tokens(2) matches Some(t) && t[0] == TokenKind::Name && t[1]
                != TokenKind::Less && t[1] != TokenKind::Comma ==> (res matches Ok(v) && v@.len()
                == 1 && v@[0].1 is None && final(self).current_token().kind == old(self).tokens(
                2,
            )->0[1]),
    {
        let ghost single = (old(self).tokens(2) matches Some(t) && t[0] == TokenKind::Name && t[1]
            != TokenKind::Less && t[1] != TokenKind::Comma);
        let mut res = vec![self.attrib_name()?];
        loop
            invariant
                old(self).moved_on(self),
                self.rank() < old(self).rank(),
                res@.len() >= 1,
                res@[0].0 == old(self).current,
                forall|i: int| 0 <= i < res@.len() ==> (#[trigger] res@[i]).0.kind == TokenKind::Name,
                single == (old(self).tokens(2) matches Some(t) && t[0] == TokenKind::Name && t[1]
                    != TokenKind::Less && t[1] != TokenKind::Comma),
                single ==> res@.len() == 1 && res@[0].1 is None && self.current.kind
                    == old(self).tokens(2)->0[1],
            decreases self.rank(),
        {
            if !self.check(TokenKind::Comma)? {
                break;
            }
            let t = self.attrib_name()?;
            res.push(t);
        }
        Ok(res)
    }

    /// Parse a comma separated list of names, `None` if there is no first name.
    /// Errors if a trailing comma is parsed.
    fn comma_names(&mut self) -> (res: Result<Option<Vec<Token<'a>>>, ParseError<'a>>)
        requires
            old(self).wf(),
        ensures
            res is Ok ==> old(self).moved_on(final(self)),
            res matches Ok(None) ==> *final(self) == *old(self),
            old(self).current_token().kind != TokenKind::Name ==> res == Ok::<
                Option<Vec<Token<'a>>>,
                ParseError<'a>,
            >(None),
            res matches Ok(Some(v)) ==> {
                &&& v@.len() >= 1
                &&& v@[0] == old(self).current_token()
                &&& forall|i: int| 0 <= i < v@.len() ==> (#[trigger] v@[i]).kind == TokenKind::Name
                &&& final(self).rank() < old(self).rank()
            },
            old(self).tokens(2) matches Some(t) && t[0] == TokenKind::Name && t[1]
                != TokenKind::Comma ==> (res matches Ok(Some(v)) && v@.len() == 1),
            forall|m: nat|
                m >= 2 && (old(self).tokens(2) matches Some(t) && t[0] == TokenKind::Name && t[1]
                    != TokenKind::Comma) && #[trigger] old(self).tokens(m) is Some
                    ==> final(self).tokens((m - 1) as nat) == Some(old(self).tokens(m)->0.drop_first()),
    {
        let ghost single = (old(self).tokens(2) matches Some(t) && t[0] == TokenKind::Name && t[1]
            != TokenKind::Comma);
        proof {
            if self.tokens(2) is Some {
                self.lemma_tokens(2);
            }
        }
        if !self.check(TokenKind::Name)? {
            return Ok(None);
        }
        let mut res = vec![self.previous];
        proof {
            if single {
                self.lemma_tokens(1);
            }
        }
        let ghost s1 = *self;
        loop
            invariant
                single ==> *self == s1,
                single ==> forall|m: nat|
                    m >= 2 && #[trigger] old(self).tokens(m) is Some ==> s1.tokens((m - 1) as nat)
                        == Some(old(self).tokens(m)->0.drop_first()),
                old(self).moved_on(self),
                self.rank() < old(self).rank(),
                res@.len() >= 1,
                res@[0] == old(self).current,
                forall|i: int| 0 <= i < res@.len() ==> (#[trigger] res@[i]).kind == TokenKind::Name,
                single == (old(self).tokens(2) matches Some(t) && t[0] == TokenKind::Name && t[1]
                    != TokenKind::Comma),
                single ==> res@.len() == 1 && self.current.kind != TokenKind::Comma,
            decreases self.rank(),
        {
            if !self.check(TokenKind::Comma)? {
                break;
            }
            if !self.check(TokenKind::Name)? {
                return Err(self.error("Unexpected trailing comma"));
            }
            res.push(self.previous);
        }
        Ok(Some(res))
    }

    /// Parse the rest of the variables of an assignment, after the first one
    /// and its comma.  The list is parsed whole before its entries are checked
    /// to be variables.
    fn comma_vars(&mut self, vars: &mut Vec<ast::Var<'a>>) -> (res: Result<(), ParseError<'a>>)
        requires
            old(self).wf(),
        ensures
            res is Ok ==> (vars_bound(old(vars)@) ==> vars_bound(final(vars)@)),
            res is Ok ==> old(self).moved_on(final(self)),
            final(vars)@.len() >= old(vars)@.len(),
            forall|i: int| 0 <= i < old(vars)@.len() ==> final(vars)@[i] == old(vars)@[i],
            parse_rule(old(self).current_token().kind).prefix is None ==> res is Ok
                && final(vars)@ == old(vars)@ && *final(self) == *old(self),
            res is Ok && parse_rule(old(self).current_token().kind).prefix is Some
                ==> final(self).rank() < old(self).rank(),
        decreases old(self).rank(), 2nat,
    {
        let mut valid = true;
        let first = match self.parse_precedence(Precedence::Call)? {
            Some(e) => e,
            None => return Ok(()),
        };
        match first {
            ast::Expression::Prefix(ast::PrefixExpression::Var(v)) => {
                proof {
                    assert(prefix_bound(ast::PrefixExpression::Var(v)));
                    assert(var_bound(*v));
                }
                vars.push(*v);
            },
            _ => {
                valid = false;
            },
        }
        loop
            invariant
                old(self).moved_on(self),
                self.rank() < old(self).rank(),
                parse_rule(old(self).current.kind).prefix is Some,
                vars@.len() >= old(vars)@.len(),
                forall|i: int| 0 <= i < old(vars)@.len() ==> vars@[i] == old(vars)@[i],
                vars_bound(old(vars)@) ==> vars_bound(vars@),
            decreases self.rank(),
        {
            if !self.check(TokenKind::Comma)? {
                break;
            }
            let t = match self.parse_precedence(Precedence::Call)? {
                Some(t) => t,
                None => return Err(self.error("Unexpected trailing comma")),
            };
            match t {
                ast::Expression::Prefix(ast::PrefixExpression::Var(v)) => {
                    proof {
                        assert(prefix_bound(ast::PrefixExpression::Var(v)));
                        assert(var_bound(*v));
                    }
                    vars.push(*v);
                },
                _ => {
                    valid = false;
                },
            }
        }
        if !valid {
            return Err(self.error("Expected variable name expression in assignment"));
        }
        Ok(())
    }

    /// Parse a comma separated list of expressions, `None` if there is no
    /// first expression.  Errors if a trailing comma is parsed.
    fn comma_expressions(&mut self) -> (res: Result<Option<Vec<ast::Expression<'a>>>, ParseError<'a>>)
        requires
            old(self).wf(),
        ensures
            res matches Ok(Some(v)) ==> exprs_bound(v@),
            res is Ok ==> old(self).moved_on(final(self)),
            res matches Ok(Some(_)) ==> final(self).rank() < old(self).rank(),
            res matches Ok(None) ==> *final(self) == *old(self),
            parse_rule(old(self).current_token().kind).prefix is None ==> res == Ok::<
                Option<Vec<ast::Expression<'a>>>,
                ParseError<'a>,
            >(None),
            simple_next(old(self).tokens(2)) && old(self).tokens(2)->0[1] != TokenKind::Comma ==> (
            res matches Ok(Some(v)) && v@ == seq![simple_expression(old(self).current_token())->0]
                && final(self).current_token().kind == old(self).tokens(2)->0[1]),
            forall|m: nat|
                m >= 2 && simple_next(old(self).tokens(2)) && old(self).tokens(2)->0[1]
                    != TokenKind::Comma && #[trigger] old(self).tokens(m) is Some
                    ==> final(self).tokens((m - 1) as nat) == Some(old(self).tokens(m)->0.drop_first()),
        decreases old(self).rank(), 3nat,
    {
        let ghost single = simple_next(old(self).tokens(2)) && old(self).tokens(2)->0[1]
            != TokenKind::Comma;
        let first = match self.expression()? {
            Some(e) => e,
            None => return Ok(None),
        };
        let mut res = vec![first];
        let ghost s1 = *self;
        loop
            invariant
                old(self).moved_on(self),
                self.rank() < old(self).rank(),
                exprs_bound(res@),
                parse_rule(old(self).current.kind).prefix is Some,
                single ==> *self == s1,
                single ==> forall|m: nat|
                    m >= 2 && #[trigger] old(self).tokens(m) is Some ==> s1.tokens((m - 1) as nat)
                        == Some(old(self).tokens(m)->0.drop_first()),
                single == (simple_next(old(self).tokens(2)) && old(self).tokens(2)->0[1]
                    != TokenKind::Comma),
                single ==> res@ == seq![simple_expression(old(self).current)->0]
                    && self.current.kind == old(self).tokens(2)->0[1],
            decreases self.rank(),
        {
            if !self.check(TokenKind::Comma)? {
                break;
            }
            let t = match self.expression()? {
                Some(t) => t,
                None => return Err(self.error("Unexpected trailing comma")),
            };
            res.push(t);
        }
        Ok(Some(res))
    }

    /// Parse an expression
    pub fn expression(&mut self) -> (res: Result<Option<ast::Expression<'a>>, ParseError<'a>>)
        requires
            old(self).wf(),
        ensures
            res is Ok ==> old(self).moved_on(final(self)),
            res matches Ok(Some(_)) ==> final(self).rank() < old(self).rank(),
            res matches Ok(None) ==> *final(self) == *old(self),
            res matches Ok(None) <==> parse_rule(old(self).current_token().kind).prefix is None,
            res matches Ok(Some(e)) ==> well_bound(e),
            simple_next(old(self).tokens(2)) ==> (res == Ok::<
                Option<ast::Expression<'a>>,
                ParseError<'a>,
            >(Some(simple_expression(old(self).current_token())->0))
                && final(self).current_token().kind == old(self).tokens(2)->0[1]),
            forall|m: nat|
                m >= 2 && simple_next(old(self).tokens(2)) && #[trigger] old(self).tokens(m) is Some
                    ==> final(self).tokens((m - 1) as nat) == Some(old(self).tokens(m)->0.drop_first()),
        decreases old(self).rank(), 2nat,
    {
        self.parse_precedence(Precedence::OrPrec)
    }

    /// Parse an expression with the given precedence
    fn parse_precedence(&mut self, prec: Precedence) -> (res: Result<
        Option<ast::Expression<'a>>,
        ParseError<'a>,
    >)
        requires
            old(self).wf(),
        ensures
            res is Ok ==> old(self).moved_on(final(self)),
            res matches Ok(Some(_)) ==> final(self).rank() < old(self).rank(),
            res matches Ok(None) ==> *final(self) == *old(self),
            res matches Ok(None) <==> parse_rule(old(self).current.kind).prefix is None,
            res matches Ok(Some(e)) ==> {
                &&& well_bound(e)
                &&& (e is Binary ==> top_level(e) >= level(prec))
                &&& stops_at(prec, final(self).current.kind)
            },
            simple_next(old(self).tokens(2)) ==> (res == Ok::<
                Option<ast::Expression<'a>>,
                ParseError<'a>,
            >(Some(simple_expression(old(self).current_token())->0))
                && final(self).current_token().kind == old(self).tokens(2)->0[1]),
            forall|m: nat|
                m >= 2 && simple_next(old(self).tokens(2)) && #[trigger] old(self).tokens(m) is Some
                    ==> final(self).tokens((m - 1) as nat) == Some(old(self).tokens(m)->0.drop_first()),
        decreases old(self).rank(), 1nat,
    {
        let ghost simple = simple_next(old(self).tokens(2));
        let ghost t1 = old(self).tokens(2)->0[1];
        proof {
            if simple {
                self.lemma_tokens(2);
            }
        }
        let prefix_rule = match ParseRule::get(self.current.kind).prefix {
            Some(r) => r,
            None => return Ok(None),
        };
        self.advance()?;
        proof {
            if simple {
                self.lemma_tokens(1);
            }
        }
        let ghost s1 = *self;
        let mut expr = self.prefix(prefix_rule)?;
        loop
            invariant
                simple == simple_next(old(self).tokens(2)),
                t1 == old(self).tokens(2)->0[1],
                simple ==> expr == simple_expression(old(self).current)->0 && self.current.kind
                    == t1 && *self == s1,
                forall|m: nat|
                    m >= 2 && #[trigger] old(self).tokens(m) is Some ==> s1.tokens((m - 1) as nat)
                        == Some(old(self).tokens(m)->0.drop_first()),
                old(self).moved_on(self),
                self.rank() < old(self).rank(),
                parse_rule(old(self).current.kind).prefix is Some,
                well_bound(expr),
                expr is Binary ==> top_level(expr) >= level(prec),
                may_follow(expr, self.current.kind),
            ensures
                stops_at(prec, self.current.kind),
            decreases self.rank(),
        {
            let rule = ParseRule::get(self.current.kind);
            if prec.level() > rule.precedence.level() {
                break;
            }
            if self.check(TokenKind::Eof)? {
                break;
            }
            let infix_rule = match rule.postfix {
                Some(r) => r,
                None => break,
            };
            match self.postfix(infix_rule, expr)? {
                Postfix::Applied(e) => {
                    proof {
                        if binary_token(self.current.kind) {
                            lemma_binary_token(self.current.kind);
                        }
                    }
                    expr = e;
                },
                Postfix::NotApplicable(e) => {
                    expr = e;
                    break;
                },
            }
        }
        Ok(Some(expr))
    }

    /// Run the prefix parser for the token just consumed
    fn prefix(&mut self, rule: PrefixRule) -> (res: Result<ast::Expression<'a>, ParseError<'a>>)
        requires
            old(self).wf(),
            parse_rule(old(self).previous.kind).prefix == Some(rule),
        ensures
            res is Ok ==> old(self).moved_on(final(self)),
            res matches Ok(e) ==> well_bound(e) && !(e is Binary) && may_follow(
                e,
                final(self).current.kind,
            ),
            simple_kind(old(self).previous_token().kind) ==> res == Ok::<
                ast::Expression<'a>,
                ParseError<'a>,
            >(simple_expression(old(self).previous_token())->0) && *final(self) == *old(self),
        decreases old(self).rank(), 7nat,
    {
        let res = match rule {
            PrefixRule::Number => Ok(number(self)),
            PrefixRule::String => Ok(string(self)),
            PrefixRule::True => Ok(expr_true(self)),
            PrefixRule::False => Ok(expr_false(self)),
            PrefixRule::DotDotDot => Ok(dot_dot_dot(self)),
            PrefixRule::Nil => Ok(nil(self)),
            PrefixRule::Name => Ok(name(self)),
            PrefixRule::Function => function(self),
            PrefixRule::Table => table(self),
            PrefixRule::Grouping => grouping(self),
            PrefixRule::Unary => unary(self),
        };
        proof {
            if binary_token(self.current.kind) {
                lemma_binary_token(self.current.kind);
            }
            let v = ast::Var::Name(old(self).previous);
            assert(var_bound(v));
            assert(prefix_bound(ast::PrefixExpression::Var(Box::new(v))));
        }
        res
    }

    /// Run the postfix parser for the current token on the expression `lhs`
    fn postfix(&mut self, rule: PostfixRule, lhs: ast::Expression<'a>) -> (res: Result<
        Postfix<'a>,
        ParseError<'a>,
    >)
        requires
            old(self).wf(),
            parse_rule(old(self).current.kind).postfix == Some(rule),
            well_bound(lhs),
            rule == PostfixRule::Binary || rule == PostfixRule::Right ==> may_follow(
                lhs,
                old(self).current.kind,
            ),
        ensures
            res is Ok ==> old(self).moved_on(final(self)),
            res matches Ok(Postfix::Applied(_)) ==> final(self).rank() < old(self).rank(),
            res matches Ok(Postfix::NotApplicable(_)) ==> *final(self) == *old(self),
            rule == PostfixRule::Binary || rule == PostfixRule::Right ==> (res matches Ok(p) ==> (
            p matches Postfix::Applied(e) && e is Binary && well_bound(e) && top_level(e) == level(
                parse_rule(old(self).current.kind).precedence,
            ) && may_follow(e, final(self).current.kind))),
            !(rule == PostfixRule::Binary || rule == PostfixRule::Right) ==> (res matches Ok(
                Postfix::Applied(e),
            ) ==> e is Prefix),
            res matches Ok(Postfix::NotApplicable(e)) ==> e == lhs,
            res matches Ok(Postfix::Applied(e)) ==> well_bound(e),
            rule == PostfixRule::Binary || rule == PostfixRule::Right ==> (old(self).tokens(3) matches Some(t)
                && simple_next(Some(t.drop_first())) ==> res is Ok),
        decreases old(self).rank(), 7nat,
    {
        match rule {
            PostfixRule::Binary => binary(self, lhs),
            PostfixRule::Right => right(self, lhs),
            PostfixRule::Index => index(self, lhs),
            PostfixRule::Dot => dot(self, lhs),
            PostfixRule::CallArgs => call_args(self, lhs),
            PostfixRule::CallMethod => call_method(self, lhs),
            PostfixRule::CallString => call_string(self, lhs),
            PostfixRule::CallTable => call_table(self, lhs),
        }
    }
}

/// Parse a number token
fn number<'a>(this: &mut Parser<'a>) -> (e: ast::Expression<'a>)
    ensures
        e == ast::Expression::Number(old(this).previous),
        *final(this) == *old(this),
{
    ast::Expression::Number(this.previous)
}

/// Parse a string token
fn string<'a>(this: &mut Parser<'a>) -> (e: ast::Expression<'a>)
    ensures
        e == ast::Expression::String(old(this).previous),
        *final(this) == *old(this),
{
    ast::Expression::String(this.previous)
}

/// Parse a boolean true token
fn expr_true<'a>(this: &mut Parser<'a>) -> (e: ast::Expression<'a>)
    ensures
        e == ast::Expression::<'a>::True,
        *final(this) == *old(this),
{
    ast::Expression::True
}

/// Parse a boolean false token
fn expr_false<'a>(this: &mut Parser<'a>) -> (e: ast::Expression<'a>)
    ensures
        e == ast::Expression::<'a>::False,
        *final(this) == *old(this),
{
    ast::Expression::False
}

/// Parse a `...` token
fn dot_dot_dot<'a>(this: &mut Parser<'a>) -> (e: ast::Expression<'a>)
    ensures
        e == ast::Expression::<'a>::DotDotDot,
        *final(this) == *old(this),
{
    ast::Expression::DotDotDot
}

/// Parse a nil token
fn nil<'a>(this: &mut Parser<'a>) -> (e: ast::Expression<'a>)
    ensures
        e == ast::Expression::<'a>::Nil,
        *final(this) == *old(this),
{
    ast::Expression::Nil
}

/// Parse an identifier name
fn name<'a>(this: &mut Parser<'a>) -> (e: ast::Expression<'a>)
    ensures
        e == ast::Expression::Prefix(
            ast::PrefixExpression::Var(Box::new(ast::Var::Name(old(this).previous))),
        ),
        *final(this) == *old(this),
{
    ast::Expression::Prefix(ast::PrefixExpression::Var(Box::new(ast::Var::Name(this.previous))))
}

/// Parse a function (lambda) expression
fn function<'a>(this: &mut Parser<'a>) -> (res: Result<ast::Expression<'a>, ParseError<'a>>)
    requires
        old(this).wf(),
    ensures
        res matches Ok(e) ==> well_bound(e),
        res is Ok ==> old(this).moved_on(final(this)),
        res matches Ok(e) ==> e is Function,
        old(this).tokens(4) matches Some(t) && t[0] == TokenKind::LeftParen && t[1]
            == TokenKind::RightParen && t[2] == TokenKind::End ==> (res matches Ok(
            ast::Expression::Function(f),
        ) && f.parameters.names@.len() == 0 && f.parameters.var_name is None
            && f.body.statements@.len() == 0 && f.body.ret_stat is None),
    decreases old(this).rank(), 4nat,
{
    Ok(ast::Expression::Function(this.function_body()?))
}

/// Parse a table constructor
fn table<'a>(this: &mut Parser<'a>) -> (res: Result<ast::Expression<'a>, ParseError<'a>>)
    requires
        old(this).wf(),
    ensures
        res matches Ok(e) ==> well_bound(e),
        res is Ok ==> old(this).moved_on(final(this)),
        res matches Ok(e) ==> e is Table,
        old(this).tokens(2) matches Some(t) && t[0] == TokenKind::RightCurly ==> (res matches Ok(
            ast::Expression::Table(f),
        ) && f.fields@.len() == 0),
    decreases old(this).rank(), 6nat,
{
    Ok(ast::Expression::Table(table_inner(this)?))
}

/// Parse the fields of a table constructor, after its `{`
fn table_inner<'a>(this: &mut Parser<'a>) -> (res: Result<ast::FieldList<'a>, ParseError<'a>>)
    requires
        old(this).wf(),
    ensures
        res matches Ok(f) ==> fields_bound(f.fields@),
        res is Ok ==> old(this).moved_on(final(this)),
        old(this).tokens(2) matches Some(t) && t[0] == TokenKind::RightCurly ==> (res matches Ok(f)
            && f.fields@.len() == 0),
    decreases old(this).rank(), 5nat,
{
    proof {
        if this.tokens(2) is Some {
            this.lemma_tokens(2);
        }
    }
    let mut fields = vec![];
    if this.check(TokenKind::RightCurly)? {
        // empty constructor
        return Ok(ast::FieldList { fields });
    }
    fields.push(field(this)?);
    loop
        invariant
            old(this).moved_on(this),
            fields_bound(fields@),
            !(old(this).tokens(2) matches Some(t) && t[0] == TokenKind::RightCurly),
        decreases this.rank(),
    {
        if !this.check(TokenKind::Comma)? {
            if !this.check(TokenKind::SemiColon)? {
                break;
            }
        }
        if this.current.kind == TokenKind::RightCurly {
            break;
        }
        fields.push(field(this)?);
    }
    this.consume(TokenKind::RightCurly, "Expected `}` after table constructor")?;
    Ok(ast::FieldList { fields })
}

/// Parse an individual field within a table constructor
fn field<'a>(this: &mut Parser<'a>) -> (res: Result<ast::Field<'a>, ParseError<'a>>)
    requires
        old(this).wf(),
    ensures
        res matches Ok(f) ==> field_bound(f),
        res is Ok ==> old(this).moved_on(final(this)),
        res is Ok ==> final(this).rank() < old(this).rank(),
        simple_next(old(this).tokens(2)) && old(this).tokens(2)->0[1] != TokenKind::Equal ==> res
            == Ok::<ast::Field<'a>, ParseError<'a>>(
            ast::Field::Exp { expr: simple_expression(old(this).current_token())->0 },
        ),
    decreases old(this).rank(), 4nat,
{
    if this.check(TokenKind::LeftSquare)? {
        let lhs = match this.expression()? {
            Some(e) => e,
            None => return Err(this.error("Expected expression inside index field")),
        };
        this.consume(TokenKind::RightSquare, "Expected `]` after index")?;
        this.consume(TokenKind::Equal, "Expected `=` after index")?;
        let rhs = match this.expression()? {
            Some(e) => e,
            None => return Err(this.error("Expected expression inside index field")),
        };
        Ok(ast::Field::Index { index: lhs, expr: rhs })
    } else {
        match this.expression()? {
            Some(expr) => match expr {
                ast::Expression::Prefix(ast::PrefixExpression::Var(var)) => {
                    // attempt to match a `Name = value` assignment
                    let name_tok = match &*var {
                        ast::Var::Name(name) => Some(*name),
                        _ => None,
                    };
                    if let Some(name) = name_tok {
                        if this.check(TokenKind::Equal)? {
                            let rhs = match this.expression()? {
                                Some(e) => e,
                                None => return Err(this.error("Expected expression after `=`")),
                            };
                            return Ok(ast::Field::Assign { name, expr: rhs });
                        }
                    }
                    Ok(
                        ast::Field::Exp {
                            expr: ast::Expression::Prefix(ast::PrefixExpression::Var(var)),
                        },
                    )
                },
                other => Ok(ast::Field::Exp { expr: other }),
            },
            None => Err(
                this.error("Expected expression or index assignment in table constructor"),
            ),
        }
    }
}

/// Parse a parenthesised group
fn grouping<'a>(this: &mut Parser<'a>) -> (res: Result<ast::Expression<'a>, ParseError<'a>>)
    requires
        old(this).wf(),
    ensures
        res matches Ok(e) ==> well_bound(e),
        res is Ok ==> old(this).moved_on(final(this)),
        res matches Ok(e) ==> e is Prefix,
        simple_next(old(this).tokens(2)) && old(this).tokens(3) is Some && old(this).tokens(2)->0[1]
            == TokenKind::RightParen ==> (res matches Ok(
            ast::Expression::Prefix(ast::PrefixExpression::Expr(e)),
        ) && *e == simple_expression(old(this).current_token())->0),
    decreases old(this).rank(), 3nat,
{
    let expr = match this.expression()? {
        Some(e) => e,
        None => return Err(this.error("Expected expression within `()` group")),
    };
    let expr = Box::new(expr);
    this.consume(TokenKind::RightParen, "Expected ')' after expression.")?;
    let p = ast::PrefixExpression::Expr(expr);
    proof {
        assert(prefix_bound(p));
    }
    Ok(ast::Expression::Prefix(p))
}

/// The unary operator of a token kind that parses as one
fn unary_op(kind: TokenKind) -> (op: ast::UnaryOperator)
    requires
        unary_operator(kind) is Some,
    ensures
        unary_operator(kind) == Some(op),
{
    match kind {
        TokenKind::Minus => ast::UnaryOperator::Negate,
        TokenKind::Tilde => ast::UnaryOperator::Tilde,
        TokenKind::Hash => ast::UnaryOperator::Hash,
        _ => ast::UnaryOperator::Not,
    }
}

/// The binary operator of a token kind that parses as one
fn binary_op(kind: TokenKind) -> (op: ast::BinaryOperator)
    requires
        binary_operator(kind) is Some,
    ensures
        binary_operator(kind) == Some(op),
{
    match kind {
        TokenKind::Plus => ast::BinaryOperator::Plus,
        TokenKind::Minus => ast::BinaryOperator::Minus,
        TokenKind::Star => ast::BinaryOperator::Multiply,
        TokenKind::Slash => ast::BinaryOperator::Divide,
        TokenKind::SlashSlash => ast::BinaryOperator::FloorDivide,
        TokenKind::Percent => ast::BinaryOperator::Modulo,
        TokenKind::LessLess => ast::BinaryOperator::LeftShift,
        TokenKind::GreaterGreater => ast::BinaryOperator::RightShift,
        TokenKind::Ampersand => ast::BinaryOperator::BitAnd,
        TokenKind::Tilde => ast::BinaryOperator::BitXor,
        TokenKind::Bar => ast::BinaryOperator::BitOr,
        TokenKind::Or => ast::BinaryOperator::Or,
        TokenKind::And => ast::BinaryOperator::And,
        TokenKind::Less => ast::BinaryOperator::Less,
        TokenKind::Greater => ast::BinaryOperator::Greater,
        TokenKind::LessEqual => ast::BinaryOperator::LessEqual,
        TokenKind::GreaterEqual => ast::BinaryOperator::GreaterEqual,
        TokenKind::TildeEqual => ast::BinaryOperator::NotEqual,
        TokenKind::EqualEqual => ast::BinaryOperator::Equal,
        TokenKind::DotDot => ast::BinaryOperator::Concat,
        _ => ast::BinaryOperator::Exponent,
    }
}

/// Parse a unary operator
fn unary<'a>(this: &mut Parser<'a>) -> (res: Result<ast::Expression<'a>, ParseError<'a>>)
    requires
        old(this).wf(),
        parse_rule(old(this).previous.kind).prefix == Some(PrefixRule::Unary),
    ensures
        res is Ok ==> old(this).moved_on(final(this)),
        res matches Ok(e) ==> e matches ast::Expression::Unary { op, .. } && unary_operator(
            old(this).previous.kind,
        ) == Some(op),
        res matches Ok(e) ==> well_bound(e) && may_follow(e, final(this).current.kind),
        simple_next(old(this).tokens(2)) ==> (res matches Ok(ast::Expression::Unary { expr, .. })
            && *expr == simple_expression(old(this).current_token())->0),
    decreases old(this).rank(), 2nat,
{
    let operator_type = this.previous.kind;
    let expr = match this.parse_precedence(Precedence::Unary)? {
        Some(e) => e,
        None => return Err(this.error("Expected expression after operator")),
    };
    let expr = Box::new(expr);
    let op = unary_op(operator_type);
    Ok(ast::Expression::Unary { expr, op })
}

/// Parse a binary operator
fn binary<'a>(this: &mut Parser<'a>, lhs: ast::Expression<'a>) -> (res: Result<
    Postfix<'a>,
    ParseError<'a>,
>)
    requires
        old(this).wf(),
        parse_rule(old(this).current.kind).postfix == Some(PostfixRule::Binary),
        well_bound(lhs),
        may_follow(lhs, old(this).current.kind),
    ensures
        res is Ok ==> old(this).moved_on(final(this)),
        res matches Ok(p) ==> p matches Postfix::Applied(ast::Expression::Binary { op, .. })
            && binary_operator(old(this).current.kind) == Some(op) && final(this).rank() < old(
            this,
        ).rank(),
        res matches Ok(p) ==> p matches Postfix::Applied(e) && well_bound(e) && top_level(e)
            == level(parse_rule(old(this).current.kind).precedence) && may_follow(
            e,
            final(this).current.kind,
        ),
        old(this).tokens(3) matches Some(t) && simple_next(Some(t.drop_first())) ==> res is Ok,
    decreases old(this).rank(), 6nat,
{
    this.advance()?;
    let operator_type = this.previous.kind;
    let rule = ParseRule::get(operator_type);
    let expr = match this.parse_precedence(rule.precedence.next())? {
        Some(e) => e,
        None => return Err(this.error("Expected expression after operator")),
    };
    let op = binary_op(operator_type);
    Ok(Postfix::Applied(ast::Expression::Binary { left: Box::new(lhs), op, right: Box::new(expr) }))
}

/// Parse a right associative binary operator
fn right<'a>(this: &mut Parser<'a>, lhs: ast::Expression<'a>) -> (res: Result<
    Postfix<'a>,
    ParseError<'a>,
>)
    requires
        old(this).wf(),
        parse_rule(old(this).current.kind).postfix == Some(PostfixRule::Right),
        well_bound(lhs),
        may_follow(lhs, old(this).current.kind),
    ensures
        res is Ok ==> old(this).moved_on(final(this)),
        res matches Ok(p) ==> p matches Postfix::Applied(ast::Expression::Binary { op, .. })
            && binary_operator(old(this).current.kind) == Some(op) && final(this).rank() < old(
            this,
        ).rank(),
        res matches Ok(p) ==> p matches Postfix::Applied(e) && well_bound(e) && top_level(e)
            == level(parse_rule(old(this).current.kind).precedence) && may_follow(
            e,
            final(this).current.kind,
        ),
        old(this).tokens(3) matches Some(t) && simple_next(Some(t.drop_first())) ==> res is Ok,
    decreases old(this).rank(), 6nat,
{
    this.advance()?;
    let operator_type = this.previous.kind;
    let rule = ParseRule::get(operator_type);
    let expr = match this.parse_precedence(rule.precedence)? {
        Some(e) => e,
        None => return Err(this.error("Expected expression after operator")),
    };
    let op = binary_op(operator_type);
    Ok(Postfix::Applied(ast::Expression::Binary { left: Box::new(lhs), op, right: Box::new(expr) }))
}

/// Parse an indexing expression `a[5]`
fn index<'a>(this: &mut Parser<'a>, lhs: ast::Expression<'a>) -> (res: Result<
    Postfix<'a>,
    ParseError<'a>,
>)
    requires
        well_bound(lhs),
        old(this).wf(),
        parse_rule(old(this).current.kind).postfix == Some(PostfixRule::Index),
    ensures
        res matches Ok(Postfix::Applied(e)) ==> well_bound(e),
        res is Ok ==> old(this).moved_on(final(this)),
        res matches Ok(Postfix::Applied(_)) ==> final(this).rank() < old(this).rank(),
        res matches Ok(Postfix::Applied(e)) ==> e is Prefix,
        res matches Ok(Postfix::NotApplicable(e)) ==> *final(this) == *old(this) && e == lhs,
        (lhs !is Prefix) ==> res == Ok::<Postfix<'a>, ParseError<'a>>(
            Postfix::NotApplicable(lhs),
        ),
    decreases old(this).rank(), 6nat,
{
    let pre = match lhs {
        ast::Expression::Prefix(pre) => pre,
        other => return Ok(Postfix::NotApplicable(other)),
    };
    proof {
        assert(prefix_bound(pre));
    }
    this.advance()?;
    let expr = match this.expression()? {
        Some(e) => e,
        None => return Err(this.error("Expected index expression")),
    };
    this.consume(TokenKind::RightSquare, "Expected `]` after index")?;
    let v = ast::Var::Index { first: pre, index: expr };
    proof {
        assert(var_bound(v));
    }
    let p = ast::PrefixExpression::Var(Box::new(v));
    proof {
        assert(prefix_bound(p));
    }
    Ok(Postfix::Applied(ast::Expression::Prefix(p)))
}

/// Parse a member access expression `a.b`
fn dot<'a>(this: &mut Parser<'a>, lhs: ast::Expression<'a>) -> (res: Result<
    Postfix<'a>,
    ParseError<'a>,
>)
    requires
        well_bound(lhs),
        old(this).wf(),
        parse_rule(old(this).current.kind).postfix == Some(PostfixRule::Dot),
    ensures
        res matches Ok(Postfix::Applied(e)) ==> well_bound(e),
        res is Ok ==> old(this).moved_on(final(this)),
        res matches Ok(Postfix::Applied(_)) ==> final(this).rank() < old(this).rank(),
        res matches Ok(Postfix::Applied(e)) ==> e is Prefix,
        res matches Ok(Postfix::NotApplicable(e)) ==> *final(this) == *old(this) && e == lhs,
        (lhs !is Prefix) ==> res == Ok::<Postfix<'a>, ParseError<'a>>(
            Postfix::NotApplicable(lhs),
        ),
{
    let pre = match lhs {
        ast::Expression::Prefix(pre) => pre,
        other => return Ok(Postfix::NotApplicable(other)),
    };
    proof {
        assert(prefix_bound(pre));
    }
    this.advance()?;
    this.consume(TokenKind::Name, "Expected identifier after `.`")?;
    let name = this.previous;
    let v = ast::Var::Dot { first: pre, name };
    proof {
        assert(var_bound(v));
    }
    let p = ast::PrefixExpression::Var(Box::new(v));
    proof {
        assert(prefix_bound(p));
    }
    Ok(Postfix::Applied(ast::Expression::Prefix(p)))
}

/// Parse a call with parenthesised arguments `a(1)`
fn call_args<'a>(this: &mut Parser<'a>, lhs: ast::Expression<'a>) -> (res: Result<
    Postfix<'a>,
    ParseError<'a>,
>)
    requires
        well_bound(lhs),
        old(this).wf(),
        parse_rule(old(this).current.kind).postfix == Some(PostfixRule::CallArgs),
    ensures
        res matches Ok(Postfix::Applied(e)) ==> well_bound(e),
        res is Ok ==> old(this).moved_on(final(this)),
        res matches Ok(Postfix::Applied(_)) ==> final(this).rank() < old(this).rank(),
        res matches Ok(Postfix::Applied(e)) ==> e is Prefix,
        res matches Ok(Postfix::NotApplicable(e)) ==> *final(this) == *old(this) && e == lhs,
        (lhs !is Prefix) ==> res == Ok::<Postfix<'a>, ParseError<'a>>(
            Postfix::NotApplicable(lhs),
        ),
    decreases old(this).rank(), 6nat,
{
    let pre = match lhs {
        ast::Expression::Prefix(pre) => pre,
        other => return Ok(Postfix::NotApplicable(other)),
    };
    proof {
        assert(prefix_bound(pre));
    }
    this.advance()?;
    let args = match this.comma_expressions()? {
        Some(a) => a,
        None => vec![],
    };
    this.consume(TokenKind::RightParen, "Expected `)` after function arguments")?;
    let c = ast::FunctionCall {
        receiver: Box::new(pre),
        method_name: None,
        args: ast::FunctionArgs::Call { exprs: args },
    };
    proof {
        assert(call_bound(c));
    }
    let p = ast::PrefixExpression::Call(c);
    proof {
        assert(prefix_bound(p));
    }
    Ok(Postfix::Applied(ast::Expression::Prefix(p)))
}

/// Parse a method call `a:b(1)`, `a:b "s"` or `a:b {}`
fn call_method<'a>(this: &mut Parser<'a>, lhs: ast::Expression<'a>) -> (res: Result<
    Postfix<'a>,
    ParseError<'a>,
>)
    requires
        well_bound(lhs),
        old(this).wf(),
        parse_rule(old(this).current.kind).postfix == Some(PostfixRule::CallMethod),
    ensures
        res matches Ok(Postfix::Applied(e)) ==> well_bound(e),
        res is Ok ==> old(this).moved_on(final(this)),
        res matches Ok(Postfix::Applied(_)) ==> final(this).rank() < old(this).rank(),
        res matches Ok(Postfix::Applied(e)) ==> e is Prefix,
        res matches Ok(Postfix::NotApplicable(e)) ==> *final(this) == *old(this) && e == lhs,
        (lhs !is Prefix) ==> res == Ok::<Postfix<'a>, ParseError<'a>>(
            Postfix::NotApplicable(lhs),
        ),
    decreases old(this).rank(), 6nat,
{
    let pre = match lhs {
        ast::Expression::Prefix(pre) => pre,
        other => return Ok(Postfix::NotApplicable(other)),
    };
    proof {
        assert(prefix_bound(pre));
    }
    this.advance()?;
    this.consume(TokenKind::Name, "Expected method name after `:`")?;
    let name = this.previous;
    // args to the method "" | {} | ()
    let args = if this.check(TokenKind::String)? {
        ast::FunctionArgs::String { value: this.previous }
    } else if this.check(TokenKind::LeftCurly)? {
        let table = table_inner(this)?;
        ast::FunctionArgs::Table { table }
    } else if this.check(TokenKind::LeftParen)? {
        let args = match this.comma_expressions()? {
            Some(a) => a,
            None => vec![],
        };
        this.consume(TokenKind::RightParen, "Expected `)` after function arguments")?;
        ast::FunctionArgs::Call { exprs: args }
    } else {
        return Err(this.error("Expected function arguments after method name"));
    };
    let c = ast::FunctionCall { receiver: Box::new(pre), method_name: Some(name), args };
    proof {
        assert(call_bound(c));
    }
    let p = ast::PrefixExpression::Call(c);
    proof {
        assert(prefix_bound(p));
    }
    Ok(Postfix::Applied(ast::Expression::Prefix(p)))
}

/// Parse a call with a string argument `a "1"`
fn call_string<'a>(this: &mut Parser<'a>, lhs: ast::Expression<'a>) -> (res: Result<
    Postfix<'a>,
    ParseError<'a>,
>)
    requires
        well_bound(lhs),
        old(this).wf(),
        parse_rule(old(this).current.kind).postfix == Some(PostfixRule::CallString),
    ensures
        res matches Ok(Postfix::Applied(e)) ==> well_bound(e),
        res is Ok ==> old(this).moved_on(final(this)),
        res matches Ok(Postfix::Applied(_)) ==> final(this).rank() < old(this).rank(),
        res matches Ok(Postfix::Applied(e)) ==> e is Prefix,
        res matches Ok(Postfix::NotApplicable(e)) ==> *final(this) == *old(this) && e == lhs,
        (lhs !is Prefix) ==> res == Ok::<Postfix<'a>, ParseError<'a>>(
            Postfix::NotApplicable(lhs),
        ),
{
    let pre = match lhs {
        ast::Expression::Prefix(pre) => pre,
        other => return Ok(Postfix::NotApplicable(other)),
    };
    proof {
        assert(prefix_bound(pre));
    }
    this.advance()?;
    let value = this.previous;
    let c = ast::FunctionCall {
        receiver: Box::new(pre),
        method_name: None,
        args: ast::FunctionArgs::String { value },
    };
    proof {
        assert(call_bound(c));
    }
    let p = ast::PrefixExpression::Call(c);
    proof {
        assert(prefix_bound(p));
    }
    Ok(Postfix::Applied(ast::Expression::Prefix(p)))
}

/// Parse a call with a table argument `a {1}`
fn call_table<'a>(this: &mut Parser<'a>, lhs: ast::Expression<'a>) -> (res: Result<
    Postfix<'a>,
    ParseError<'a>,
>)
    requires
        well_bound(lhs),
        old(this).wf(),
        parse_rule(old(this).current.kind).postfix == Some(PostfixRule::CallTable),
    ensures
        res matches Ok(Postfix::Applied(e)) ==> well_bound(e),
        res is Ok ==> old(this).moved_on(final(this)),
        res matches Ok(Postfix::Applied(_)) ==> final(this).rank() < old(this).rank(),
        res matches Ok(Postfix::Applied(e)) ==> e is Prefix,
        res matches Ok(Postfix::NotApplicable(e)) ==> *final(this) == *old(this) && e == lhs,
        (lhs !is Prefix) ==> res == Ok::<Postfix<'a>, ParseError<'a>>(
            Postfix::NotApplicable(lhs),
        ),
    decreases old(this).rank(), 6nat,
{
    let pre = match lhs {
        ast::Expression::Prefix(pre) => pre,
        other => return Ok(Postfix::NotApplicable(other)),
    };
    proof {
        assert(prefix_bound(pre));
    }
    this.advance()?;
    let table = table_inner(this)?;
    let c = ast::FunctionCall {
        receiver: Box::new(pre),
        method_name: None,
        args: ast::FunctionArgs::Table { table },
    };
    proof {
        assert(call_bound(c));
    }
    let p = ast::PrefixExpression::Call(c);
    proof {
        assert(prefix_bound(p));
    }
    Ok(Postfix::Applied(ast::Expression::Prefix(p)))
}

} // verus!
