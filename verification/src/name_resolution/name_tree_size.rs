//! Sizes of name trees, counted through all their allocations.  Each `Vec`
//! counts its capacity, which its allocator chose, so each size is stated as
//! a lower bound: the bytes the tree takes were every buffer as long as its
//! contents, saturating at `usize::MAX`.

use vstd::prelude::*;

use crate::name_resolution::name_tree::{
    Block, Expression, Field, FieldList, Function, FunctionArgs, FunctionCall, FunctionName,
    NameContainer, PrefixExpression, ReturnStatement, Statement, Var,
};
use crate::utils::size_of::{add_size, buffer_size, least_buffer, sat, SizeOf};

verus! {

/// Bytes that a list of statements takes at least
pub open spec fn least_statements(s: Seq<Statement>) -> nat
    decreases s, 1nat,
{
    least_buffer(s) + sum_statements(s)
}

/// What the statements of a list hold, at least
pub open spec fn sum_statements(s: Seq<Statement>) -> nat
    decreases s, 0nat,
{
    if s.len() == 0 {
        0
    } else {
        sum_statements(s.drop_last()) + least_statement(s.last())
    }
}

/// Bytes that a list of variables takes at least
pub open spec fn least_vars(s: Seq<Var>) -> nat
    decreases s, 1nat,
{
    least_buffer(s) + sum_vars(s)
}

/// What the variables of a list hold, at least
pub open spec fn sum_vars(s: Seq<Var>) -> nat
    decreases s, 0nat,
{
    if s.len() == 0 {
        0
    } else {
        sum_vars(s.drop_last()) + least_var(s.last())
    }
}

/// Bytes that a list of expressions takes at least
pub open spec fn least_exprs(s: Seq<Expression>) -> nat
    decreases s, 1nat,
{
    least_buffer(s) + sum_exprs(s)
}

/// What the expressions of a list hold, at least
pub open spec fn sum_exprs(s: Seq<Expression>) -> nat
    decreases s, 0nat,
{
    if s.len() == 0 {
        0
    } else {
        sum_exprs(s.drop_last()) + least_expression(s.last())
    }
}

/// Bytes that a list of `elseif` branches takes at least
pub open spec fn least_branches(s: Seq<(Expression, Block)>) -> nat
    decreases s, 1nat,
{
    least_buffer(s) + sum_branches(s)
}

/// What the branches of a list hold, at least
pub open spec fn sum_branches(s: Seq<(Expression, Block)>) -> nat
    decreases s, 0nat,
{
    if s.len() == 0 {
        0
    } else {
        sum_branches(s.drop_last()) + least_expression(s.last().0) + least_block(s.last().1)
    }
}

/// Bytes that a list of table fields takes at least
pub open spec fn least_fields(s: Seq<Field>) -> nat
    decreases s, 1nat,
{
    least_buffer(s) + sum_fields(s)
}

/// What the fields of a list hold, at least
pub open spec fn sum_fields(s: Seq<Field>) -> nat
    decreases s, 0nat,
{
    if s.len() == 0 {
        0
    } else {
        sum_fields(s.drop_last()) + least_field(s.last())
    }
}

/// Bytes that a block holds at least
pub open spec fn least_block(b: Block) -> nat
    decreases b, 2nat,
{
    least_statements(b.statements@) + least_statements(b.close@) + match b.ret_stat {
        Some(r) => least_exprs(r.exprs@),
        None => 0,
    }
}

/// Bytes that a statement holds at least
pub open spec fn least_statement(s: Statement) -> nat
    decreases s, 2nat,
{
    match s {
        Statement::Assign { vars, exps, .. } => least_vars(vars@) + least_exprs(exps@),
        Statement::Call(call) => least_call(call),
        Statement::Block(block) => least_block(block),
        Statement::While { expr, block } => least_expression(expr) + least_block(block),
        Statement::Repeat { block, expr, block_end } => least_block(block) + least_expression(
            expr,
        ) + least_statements(block_end@),
        Statement::If { expr, block, elseif, else_block } => least_expression(expr) + least_block(
            block,
        ) + least_branches(elseif@) + match else_block {
            Some(b) => least_block(b),
            None => 0,
        },
        Statement::For { initial, limit, step, block, .. } => least_expression(initial)
            + least_expression(limit) + match step {
            Some(e) => least_expression(e),
            None => 0,
        } + least_block(block),
        Statement::ForEach { names, exprs, block } => least_buffer(names@) + least_exprs(exprs@)
            + least_block(block),
        Statement::Function { name, body } => least_function_name(name) + least_function(body),
        _ => 0,
    }
}

/// Bytes that the name of a function statement holds at least
pub open spec fn least_function_name(name: FunctionName) -> nat {
    match name {
        FunctionName::DefineLocal { .. } => 0,
        FunctionName::DefineGlobal { names, .. } => least_buffer(names@),
        FunctionName::Path { names, .. } => least_buffer(names@),
    }
}

/// Bytes that a variable holds at least
pub open spec fn least_var(v: Var) -> nat
    decreases v, 2nat,
{
    match v {
        Var::LocalName(_) => 0,
        Var::GlobalNames { names, .. } => least_buffer(names@),
        Var::Index { first, index } => least_prefix(first) + least_expression(index),
        Var::Dot { first, .. } => least_prefix(first),
    }
}

/// Bytes that an expression holds at least
pub open spec fn least_expression(e: Expression) -> nat
    decreases e, 2nat,
{
    match e {
        Expression::Function(function) => least_function(function),
        Expression::Prefix(pre) => least_prefix(pre),
        Expression::Table(fields) => least_fields(fields.fields@),
        Expression::Binary { left, right, .. } => vstd::layout::size_of::<Expression>()
            + least_expression(*left) + vstd::layout::size_of::<Expression>()
            + least_expression(*right),
        Expression::Unary { expr, .. } => vstd::layout::size_of::<Expression>()
            + least_expression(*expr),
        _ => 0,
    }
}

/// Bytes that a prefix expression holds at least
pub open spec fn least_prefix(p: PrefixExpression) -> nat
    decreases p, 2nat,
{
    match p {
        PrefixExpression::Var(var) => vstd::layout::size_of::<Var>() + least_var(*var),
        PrefixExpression::Call(call) => least_call(call),
        PrefixExpression::Expr(expr) => vstd::layout::size_of::<Expression>()
            + least_expression(*expr),
    }
}

/// Bytes that a call holds at least
pub open spec fn least_call(c: FunctionCall) -> nat
    decreases c, 2nat,
{
    vstd::layout::size_of::<PrefixExpression>() + least_prefix(*c.receiver) + match c.args {
        FunctionArgs::Call { exprs } => least_exprs(exprs@),
        FunctionArgs::Table { table } => least_fields(table.fields@),
        FunctionArgs::String { .. } => 0,
    }
}

/// Bytes that a function body holds at least
pub open spec fn least_function(f: Function) -> nat
    decreases f, 2nat,
{
    least_buffer(f.parameters.names@) + least_block(f.body)
}

/// Bytes that a table field holds at least
pub open spec fn least_field(f: Field) -> nat
    decreases f, 2nat,
{
    match f {
        Field::Index { index, expr } => least_expression(index) + least_expression(expr),
        Field::Assign { expr, .. } => least_expression(expr),
        Field::Exp { expr } => least_expression(expr),
    }
}

/// Bytes that a string table takes at least
pub open spec fn least_strings(s: Seq<Vec<u8>>) -> nat {
    least_buffer(s) + sum_strings(s)
}

/// What the strings of a table hold, at least
pub open spec fn sum_strings(s: Seq<Vec<u8>>) -> nat
    decreases s,
{
    if s.len() == 0 {
        0
    } else {
        sum_strings(s.drop_last()) + least_buffer(s.last()@)
    }
}

/// Bytes that a name tree and its tables take at least
pub open spec fn least_container(c: NameContainer<Block>) -> nat {
    least_block(c.tree) + least_strings(c.string_table@) + least_buffer(c.variable_table@)
        + least_buffer(c.label_table@)
}

/// Size of a list of statements
pub fn statements_size(v: &Vec<Statement>) -> (res: usize)
    ensures
        res >= sat(least_statements(v@) as int),
    decreases v,
{
    let mut total = buffer_size(v);
    let mut i: usize = 0;
    while i < v.len()
        invariant
            i <= v@.len(),
            total >= sat((least_buffer(v@) + sum_statements(v@.take(i as int))) as int),
        decreases v@.len() - i,
    {
        proof {
            assert(v@.take(i + 1).drop_last() =~= v@.take(i as int));
        }
        total = add_size(total, statement_size(&v[i]));
        i = i + 1;
    }
    proof {
        assert(v@.take(i as int) =~= v@);
    }
    total
}

/// Size of a list of variables
pub fn vars_size(v: &Vec<Var>) -> (res: usize)
    ensures
        res >= sat(least_vars(v@) as int),
    decreases v,
{
    let mut total = buffer_size(v);
    let mut i: usize = 0;
    while i < v.len()
        invariant
            i <= v@.len(),
            total >= sat((least_buffer(v@) + sum_vars(v@.take(i as int))) as int),
        decreases v@.len() - i,
    {
        proof {
            assert(v@.take(i + 1).drop_last() =~= v@.take(i as int));
        }
        total = add_size(total, var_size(&v[i]));
        i = i + 1;
    }
    proof {
        assert(v@.take(i as int) =~= v@);
    }
    total
}

/// Size of a list of expressions
pub fn exprs_size(v: &Vec<Expression>) -> (res: usize)
    ensures
        res >= sat(least_exprs(v@) as int),
    decreases v,
{
    let mut total = buffer_size(v);
    let mut i: usize = 0;
    while i < v.len()
        invariant
            i <= v@.len(),
            total >= sat((least_buffer(v@) + sum_exprs(v@.take(i as int))) as int),
        decreases v@.len() - i,
    {
        proof {
            assert(v@.take(i + 1).drop_last() =~= v@.take(i as int));
        }
        total = add_size(total, expression_size(&v[i]));
        i = i + 1;
    }
    proof {
        assert(v@.take(i as int) =~= v@);
    }
    total
}

/// Size of the `elseif` branches of an if statement
pub fn branches_size(v: &Vec<(Expression, Block)>) -> (res: usize)
    ensures
        res >= sat(least_branches(v@) as int),
    decreases v,
{
    let mut total = buffer_size(v);
    let mut i: usize = 0;
    while i < v.len()
        invariant
            i <= v@.len(),
            total >= sat((least_buffer(v@) + sum_branches(v@.take(i as int))) as int),
        decreases v@.len() - i,
    {
        proof {
            assert(v@.take(i + 1).drop_last() =~= v@.take(i as int));
        }
        total = add_size(total, expression_size(&v[i].0));
        total = add_size(total, block_size(&v[i].1));
        i = i + 1;
    }
    proof {
        assert(v@.take(i as int) =~= v@);
    }
    total
}

/// Size of a list of table fields
pub fn fields_size(v: &Vec<Field>) -> (res: usize)
    ensures
        res >= sat(least_fields(v@) as int),
    decreases v,
{
    let mut total = buffer_size(v);
    let mut i: usize = 0;
    while i < v.len()
        invariant
            i <= v@.len(),
            total >= sat((least_buffer(v@) + sum_fields(v@.take(i as int))) as int),
        decreases v@.len() - i,
    {
        proof {
            assert(v@.take(i + 1).drop_last() =~= v@.take(i as int));
        }
        total = add_size(total, field_size(&v[i]));
        i = i + 1;
    }
    proof {
        assert(v@.take(i as int) =~= v@);
    }
    total
}

/// Size of a string table
pub fn strings_size(v: &Vec<Vec<u8>>) -> (res: usize)
    ensures
        res >= sat(least_strings(v@) as int),
{
    let mut total = buffer_size(v);
    let mut i: usize = 0;
    while i < v.len()
        invariant
            i <= v@.len(),
            total >= sat((least_buffer(v@) + sum_strings(v@.take(i as int))) as int),
        decreases v@.len() - i,
    {
        proof {
            assert(v@.take(i + 1).drop_last() =~= v@.take(i as int));
        }
        total = add_size(total, buffer_size(&v[i]));
        i = i + 1;
    }
    proof {
        assert(v@.take(i as int) =~= v@);
    }
    total
}

/// Size of a name tree and its tables
pub fn container_size(c: &NameContainer<Block>) -> (res: usize)
    ensures
        res >= sat(least_container(*c) as int),
{
    let mut total = block_size(&c.tree);
    total = add_size(total, strings_size(&c.string_table));
    total = add_size(total, buffer_size(&c.variable_table));
    add_size(total, buffer_size(&c.label_table))
}

/// Size of a block
pub fn block_size(b: &Block) -> (res: usize)
    ensures
        res >= sat(least_block(*b) as int),
    decreases b,
{
    let s = add_size(statements_size(&b.statements), statements_size(&b.close));
    match &b.ret_stat {
        Some(r) => add_size(s, return_size(r)),
        None => s,
    }
}

/// Size of a return statement
pub fn return_size(r: &ReturnStatement) -> (res: usize)
    ensures
        res >= sat(least_exprs(r.exprs@) as int),
    decreases r,
{
    exprs_size(&r.exprs)
}

/// Size of a statement
pub fn statement_size(s: &Statement) -> (res: usize)
    ensures
        res >= sat(least_statement(*s) as int),
    decreases s,
{
    match s {
        Statement::Assign { vars, exps, .. } => add_size(vars_size(vars), exprs_size(exps)),
        Statement::Call(call) => call_size(call),
        Statement::Block(block) => block_size(block),
        Statement::While { expr, block } => add_size(expression_size(expr), block_size(block)),
        Statement::Repeat { block, expr, block_end } => {
            let total = add_size(block_size(block), expression_size(expr));
            add_size(total, statements_size(block_end))
        },
        Statement::If { expr, block, elseif, else_block } => {
            let mut total = add_size(expression_size(expr), block_size(block));
            total = add_size(total, branches_size(elseif));
            match else_block {
                Some(b) => add_size(total, block_size(b)),
                None => total,
            }
        },
        Statement::For { initial, limit, step, block, .. } => {
            let mut total = add_size(expression_size(initial), expression_size(limit));
            total = match step {
                Some(e) => add_size(total, expression_size(e)),
                None => total,
            };
            add_size(total, block_size(block))
        },
        Statement::ForEach { names, exprs, block } => {
            let total = add_size(buffer_size(names), exprs_size(exprs));
            add_size(total, block_size(block))
        },
        Statement::Function { name, body } => add_size(
            function_name_size(name),
            function_size(body),
        ),
        _ => 0,
    }
}

/// Size of the name of a function statement
pub fn function_name_size(name: &FunctionName) -> (res: usize)
    ensures
        res >= sat(least_function_name(*name) as int),
{
    match name {
        FunctionName::DefineLocal { .. } => 0,
        FunctionName::DefineGlobal { names, .. } => buffer_size(names),
        FunctionName::Path { names, .. } => buffer_size(names),
    }
}

/// Size of a variable
pub fn var_size(v: &Var) -> (res: usize)
    ensures
        res >= sat(least_var(*v) as int),
    decreases v,
{
    match v {
        Var::LocalName(_) => 0,
        Var::GlobalNames { names, .. } => buffer_size(names),
        Var::Index { first, index } => add_size(prefix_size(first), expression_size(index)),
        Var::Dot { first, .. } => prefix_size(first),
    }
}

/// Size of an expression
pub fn expression_size(e: &Expression) -> (res: usize)
    ensures
        res >= sat(least_expression(*e) as int),
    decreases e,
{
    match e {
        Expression::Function(function) => function_size(function),
        Expression::Prefix(pre) => prefix_size(pre),
        Expression::Table(fields) => field_list_size(fields),
        Expression::Binary { left, right, .. } => {
            let l = add_size(core::mem::size_of::<Expression>(), expression_size(left));
            let r = add_size(core::mem::size_of::<Expression>(), expression_size(right));
            add_size(l, r)
        },
        Expression::Unary { expr, .. } => add_size(
            core::mem::size_of::<Expression>(),
            expression_size(expr),
        ),
        _ => 0,
    }
}

/// Size of a prefix expression
pub fn prefix_size(p: &PrefixExpression) -> (res: usize)
    ensures
        res >= sat(least_prefix(*p) as int),
    decreases p,
{
    match p {
        PrefixExpression::Var(var) => add_size(core::mem::size_of::<Var>(), var_size(var)),
        PrefixExpression::Call(call) => call_size(call),
        PrefixExpression::Expr(expr) => add_size(
            core::mem::size_of::<Expression>(),
            expression_size(expr),
        ),
    }
}

/// Size of a function call
pub fn call_size(c: &FunctionCall) -> (res: usize)
    ensures
        res >= sat(least_call(*c) as int),
    decreases c,
{
    let r = add_size(core::mem::size_of::<PrefixExpression>(), prefix_size(&c.receiver));
    add_size(r, args_size(&c.args))
}

/// Size of the arguments of a call
pub fn args_size(a: &FunctionArgs) -> (res: usize)
    ensures
        res >= sat(
            match *a {
                FunctionArgs::Call { exprs } => least_exprs(exprs@),
                FunctionArgs::Table { table } => least_fields(table.fields@),
                FunctionArgs::String { .. } => 0,
            } as int,
        ),

    decreases a,
{
    match a {
        FunctionArgs::Call { exprs } => exprs_size(exprs),
        FunctionArgs::Table { table } => field_list_size(table),
        FunctionArgs::String { .. } => 0,
    }
}

/// Size of a function
pub fn function_size(f: &Function) -> (res: usize)
    ensures
        res >= sat(least_function(*f) as int),
    decreases f,
{
    add_size(buffer_size(&f.parameters.names), block_size(&f.body))
}

/// Size of a table constructor
pub fn field_list_size(f: &FieldList) -> (res: usize)
    ensures
        res >= sat(least_fields(f.fields@) as int),
    decreases f,
{
    fields_size(&f.fields)
}

/// Size of a table field
pub fn field_size(f: &Field) -> (res: usize)
    ensures
        res >= sat(least_field(*f) as int),
    decreases f,
{
    match f {
        Field::Index { index, expr } => add_size(expression_size(index), expression_size(expr)),
        Field::Assign { expr, .. } => expression_size(expr),
        Field::Exp { expr } => expression_size(expr),
    }
}

impl SizeOf for NameContainer<Block> {
    open spec fn least_size(&self) -> nat {
        least_container(*self)
    }

    fn size(&self) -> usize {
        container_size(self)
    }
}

impl SizeOf for Block {
    open spec fn least_size(&self) -> nat {
        least_block(*self)
    }

    fn size(&self) -> usize {
        block_size(self)
    }
}

impl SizeOf for Statement {
    open spec fn least_size(&self) -> nat {
        least_statement(*self)
    }

    fn size(&self) -> usize {
        statement_size(self)
    }
}

impl SizeOf for Expression {
    open spec fn least_size(&self) -> nat {
        least_expression(*self)
    }

    fn size(&self) -> usize {
        expression_size(self)
    }
}

} // verus!
