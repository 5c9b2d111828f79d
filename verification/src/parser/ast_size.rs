//! Sizes of syntax trees, counted through all their allocations.  Each
//! `Vec` counts its capacity, which its allocator chose, so each size is
//! stated as a lower bound: the bytes the tree takes were every buffer as
//! long as its contents, saturating at `usize::MAX`.

use vstd::prelude::*;

use crate::parser::ast::{
    AttributeNameList, Block, Expression, Field, FieldList, Function, FunctionArgs, FunctionCall,
    FunctionName, ParameterList, PrefixExpression, ReturnStatement, Statement, Var,
};
use crate::utils::size_of::{add_size, buffer_size, least_buffer, sat, SizeOf};

verus! {

/// Bytes that a list of statements takes at least
pub open spec fn least_statements<'a>(s: Seq<Statement<'a>>) -> nat
    decreases s, 1nat,
{
    least_buffer(s) + sum_statements(s)
}

/// What the statements of a list hold, at least
pub open spec fn sum_statements<'a>(s: Seq<Statement<'a>>) -> nat
    decreases s, 0nat,
{
    if s.len() == 0 {
        0
    } else {
        sum_statements(s.drop_last()) + least_statement(s.last())
    }
}

/// Bytes that a list of variables takes at least
pub open spec fn least_vars<'a>(s: Seq<Var<'a>>) -> nat
    decreases s, 1nat,
{
    least_buffer(s) + sum_vars(s)
}

/// What the variables of a list hold, at least
pub open spec fn sum_vars<'a>(s: Seq<Var<'a>>) -> nat
    decreases s, 0nat,
{
    if s.len() == 0 {
        0
    } else {
        sum_vars(s.drop_last()) + least_var(s.last())
    }
}

/// Bytes that a list of expressions takes at least
pub open spec fn least_exprs<'a>(s: Seq<Expression<'a>>) -> nat
    decreases s, 1nat,
{
    least_buffer(s) + sum_exprs(s)
}

/// What the expressions of a list hold, at least
pub open spec fn sum_exprs<'a>(s: Seq<Expression<'a>>) -> nat
    decreases s, 0nat,
{
    if s.len() == 0 {
        0
    } else {
        sum_exprs(s.drop_last()) + least_expression(s.last())
    }
}

/// Bytes that a list of `elseif` branches takes at least
pub open spec fn least_branches<'a>(s: Seq<(Expression<'a>, Block<'a>)>) -> nat
    decreases s, 1nat,
{
    least_buffer(s) + sum_branches(s)
}

/// What the branches of a list hold, at least
pub open spec fn sum_branches<'a>(s: Seq<(Expression<'a>, Block<'a>)>) -> nat
    decreases s, 0nat,
{
    if s.len() == 0 {
        0
    } else {
        sum_branches(s.drop_last()) + least_expression(s.last().0) + least_block(s.last().1)
    }
}

/// Bytes that a list of table fields takes at least
pub open spec fn least_fields<'a>(s: Seq<Field<'a>>) -> nat
    decreases s, 1nat,
{
    least_buffer(s) + sum_fields(s)
}

/// What the fields of a list hold, at least
pub open spec fn sum_fields<'a>(s: Seq<Field<'a>>) -> nat
    decreases s, 0nat,
{
    if s.len() == 0 {
        0
    } else {
        sum_fields(s.drop_last()) + least_field(s.last())
    }
}

/// Bytes that a block holds at least
pub open spec fn least_block<'a>(b: Block<'a>) -> nat
    decreases b, 2nat,
{
    least_statements(b.statements@) + match b.ret_stat {
        Some(r) => least_exprs(r.exprs@),
        None => 0,
    }
}

/// Bytes that a statement holds at least
pub open spec fn least_statement<'a>(s: Statement<'a>) -> nat
    decreases s, 2nat,
{
    match s {
        Statement::Assign { vars, exps } => least_vars(vars@) + least_exprs(exps@),
        Statement::Call(call) => least_call(call),
        Statement::Block(block) => least_block(block),
        Statement::While { expr, block } => least_expression(expr) + least_block(block),
        Statement::Repeat { block, expr } => least_block(block) + least_expression(expr),
        Statement::If { expr, block, elseif, else_block } => least_expression(expr) + least_block(
            block,
        ) + least_branches(elseif@) + match else_block {
            Some(b) => least_block(b),
            None => 0,
        },
        Statement::For { initial, limit, step, block, .. } => least_expression(initial)
            + least_expression(limit) + match step {
            Some(e) => least_expression(e),
            None => 0,
        } + least_block(block),
        Statement::ForEach { names, exprs, block } => least_buffer(names@) + least_exprs(exprs@)
            + least_block(block),
        Statement::Function { name, body, .. } => least_buffer(name.names@) + least_function(body),
        Statement::Declare { names, exprs, .. } => least_buffer(names.names@) + least_exprs(
            exprs@,
        ),
        _ => 0,
    }
}

/// Bytes that a variable holds at least
pub open spec fn least_var<'a>(v: Var<'a>) -> nat
    decreases v, 2nat,
{
    match v {
        Var::Name(_) => 0,
        Var::Index { first, index } => least_prefix(first) + least_expression(index),
        Var::Dot { first, .. } => least_prefix(first),
    }
}

/// Bytes that an expression holds at least
pub open spec fn least_expression<'a>(e: Expression<'a>) -> nat
    decreases e, 2nat,
{
    match e {
        Expression::Function(function) => least_function(function),
        Expression::Prefix(pre) => least_prefix(pre),
        Expression::Table(fields) => least_fields(fields.fields@),
        Expression::Binary { left, right, .. } => vstd::layout::size_of::<Expression<'a>>()
            + least_expression(*left) + vstd::layout::size_of::<Expression<'a>>()
            + least_expression(*right),
        Expression::Unary { expr, .. } => vstd::layout::size_of::<Expression<'a>>()
            + least_expression(*expr),
        _ => 0,
    }
}

/// Bytes that a prefix expression holds at least
pub open spec fn least_prefix<'a>(p: PrefixExpression<'a>) -> nat
    decreases p, 2nat,
{
    match p {
        PrefixExpression::Var(var) => vstd::layout::size_of::<Var<'a>>() + least_var(*var),
        PrefixExpression::Call(call) => least_call(call),
        PrefixExpression::Expr(expr) => vstd::layout::size_of::<Expression<'a>>()
            + least_expression(*expr),
    }
}

/// Bytes that a call holds at least
pub open spec fn least_call<'a>(c: FunctionCall<'a>) -> nat
    decreases c, 2nat,
{
    vstd::layout::size_of::<PrefixExpression<'a>>() + least_prefix(*c.receiver) + match c.args {
        FunctionArgs::Call { exprs } => least_exprs(exprs@),
        FunctionArgs::Table { table } => least_fields(table.fields@),
        FunctionArgs::String { .. } => 0,
    }
}

/// Bytes that a function body holds at least
pub open spec fn least_function<'a>(f: Function<'a>) -> nat
    decreases f, 2nat,
{
    least_buffer(f.parameters.names@) + least_block(f.body)
}

/// Bytes that a table field holds at least
pub open spec fn least_field<'a>(f: Field<'a>) -> nat
    decreases f, 2nat,
{
    match f {
        Field::Index { index, expr } => least_expression(index) + least_expression(expr),
        Field::Assign { expr, .. } => least_expression(expr),
        Field::Exp { expr } => least_expression(expr),
    }
}

/// Size of a list of statements
pub fn statements_size(v: &Vec<Statement<'_>>) -> (res: usize)
    ensures
        res >= sat(least_statements(v@) as int),
    decreases v,
{
    let mut total = buffer_size(v);
    let mut i: usize = 0;
    while i < v.len()
        invariant
            i <= v@.len(),
            total >= sat((least_buffer(v@) + sum_statements(v@.take(i as int))) as int),
        decreases v@.len() - i,
    {
        proof {
            assert(v@.take(i + 1).drop_last() =~= v@.take(i as int));
        }
        total = add_size(total, statement_size(&v[i]));
        i = i + 1;
    }
    proof {
        assert(v@.take(i as int) =~= v@);
    }
    total
}

/// Size of a list of variables
pub fn vars_size(v: &Vec<Var<'_>>) -> (res: usize)
    ensures
        res >= sat(least_vars(v@) as int),
    decreases v,
{
    let mut total = buffer_size(v);
    let mut i: usize = 0;
    while i < v.len()
        invariant
            i <= v@.len(),
            total >= sat((least_buffer(v@) + sum_vars(v@.take(i as int))) as int),
        decreases v@.len() - i,
    {
        proof {
            assert(v@.take(i + 1).drop_last() =~= v@.take(i as int));
        }
        total = add_size(total, var_size(&v[i]));
        i = i + 1;
    }
    proof {
        assert(v@.take(i as int) =~= v@);
    }
    total
}

/// Size of a list of expressions
pub fn exprs_size(v: &Vec<Expression<'_>>) -> (res: usize)
    ensures
        res >= sat(least_exprs(v@) as int),
    decreases v,
{
    let mut total = buffer_size(v);
    let mut i: usize = 0;
    while i < v.len()
        invariant
            i <= v@.len(),
            total >= sat((least_buffer(v@) + sum_exprs(v@.take(i as int))) as int),
        decreases v@.len() - i,
    {
        proof {
            assert(v@.take(i + 1).drop_last() =~= v@.take(i as int));
        }
        total = add_size(total, expression_size(&v[i]));
        i = i + 1;
    }
    proof {
        assert(v@.take(i as int) =~= v@);
    }
    total
}

/// Size of a list of `elseif` branches
pub fn branches_size(v: &Vec<(Expression<'_>, Block<'_>)>) -> (res: usize)
    ensures
        res >= sat(least_branches(v@) as int),
    decreases v,
{
    let mut total = buffer_size(v);
    let mut i: usize = 0;
    while i < v.len()
        invariant
            i <= v@.len(),
            total >= sat((least_buffer(v@) + sum_branches(v@.take(i as int))) as int),
        decreases v@.len() - i,
    {
        proof {
            assert(v@.take(i + 1).drop_last() =~= v@.take(i as int));
        }
        total = add_size(total, expression_size(&v[i].0));
        total = add_size(total, block_size(&v[i].1));
        i = i + 1;
    }
    proof {
        assert(v@.take(i as int) =~= v@);
    }
    total
}

/// Size of a list of table fields
pub fn fields_size(v: &Vec<Field<'_>>) -> (res: usize)
    ensures
        res >= sat(least_fields(v@) as int),
    decreases v,
{
    let mut total = buffer_size(v);
    let mut i: usize = 0;
    while i < v.len()
        invariant
            i <= v@.len(),
            total >= sat((least_buffer(v@) + sum_fields(v@.take(i as int))) as int),
        decreases v@.len() - i,
    {
        proof {
            assert(v@.take(i + 1).drop_last() =~= v@.take(i as int));
        }
        total = add_size(total, field_size(&v[i]));
        i = i + 1;
    }
    proof {
        assert(v@.take(i as int) =~= v@);
    }
    total
}

/// Size of a block
pub fn block_size(b: &Block<'_>) -> (res: usize)
    ensures
        res >= sat(least_block(*b) as int),
    decreases b,
{
    let s = statements_size(&b.statements);
    match &b.ret_stat {
        Some(r) => add_size(s, return_size(r)),
        None => s,
    }
}

/// Size of a return statement
pub fn return_size(r: &ReturnStatement<'_>) -> (res: usize)
    ensures
        res >= sat(least_exprs(r.exprs@) as int),
    decreases r,
{
    exprs_size(&r.exprs)
}

/// Size of a statement
pub fn statement_size(s: &Statement<'_>) -> (res: usize)
    ensures
        res >= sat(least_statement(*s) as int),
    decreases s,
{
    match s {
        Statement::Empty => 0,
        Statement::Assign { vars, exps } => add_size(vars_size(vars), exprs_size(exps)),
        Statement::Call(call) => call_size(call),
        Statement::Label(_) => 0,
        Statement::Break => 0,
        Statement::Goto(_) => 0,
        Statement::Block(block) => block_size(block),
        Statement::While { expr, block } => add_size(expression_size(expr), block_size(block)),
        Statement::Repeat { block, expr } => add_size(block_size(block), expression_size(expr)),
        Statement::If { expr, block, elseif, else_block } => {
            let mut total = add_size(expression_size(expr), block_size(block));
            total = add_size(total, branches_size(elseif));
            match else_block {
                Some(b) => add_size(total, block_size(b)),
                None => total,
            }
        },
        Statement::For { initial, limit, step, block, .. } => {
            let mut total = add_size(expression_size(initial), expression_size(limit));
            total = match step {
                Some(e) => add_size(total, expression_size(e)),
                None => total,
            };
            add_size(total, block_size(block))
        },
        Statement::ForEach { names, exprs, block } => {
            let total = add_size(buffer_size(names), exprs_size(exprs));
            add_size(total, block_size(block))
        },
        Statement::Function { name, body, .. } => add_size(
            function_name_size(name),
            function_size(body),
        ),
        Statement::Declare { names, exprs, .. } => add_size(
            attribute_names_size(names),
            exprs_size(exprs),
        ),
        Statement::GlobalCollective { .. } => 0,
    }
}

/// Size of the names of a declaration
pub fn attribute_names_size(names: &AttributeNameList<'_>) -> (res: usize)
    ensures
        res >= sat(least_buffer(names.names@) as int),
{
    buffer_size(&names.names)
}

/// Size of the name of a function statement
pub fn function_name_size(name: &FunctionName<'_>) -> (res: usize)
    ensures
        res >= sat(least_buffer(name.names@) as int),
{
    buffer_size(&name.names)
}

/// Size of a variable
pub fn var_size(v: &Var<'_>) -> (res: usize)
    ensures
        res >= sat(least_var(*v) as int),
    decreases v,
{
    match v {
        Var::Name(_) => 0,
        Var::Index { first, index } => add_size(prefix_size(first), expression_size(index)),
        Var::Dot { first, .. } => prefix_size(first),
    }
}

/// Size of an expression
pub fn expression_size(e: &Expression<'_>) -> (res: usize)
    ensures
        res >= sat(least_expression(*e) as int),
    decreases e,
{
    match e {
        Expression::Function(function) => function_size(function),
        Expression::Prefix(pre) => prefix_size(pre),
        Expression::Table(fields) => field_list_size(fields),
        Expression::Binary { left, right, .. } => {
            let l = add_size(core::mem::size_of::<Expression<'_>>(), expression_size(left));
            let r = add_size(core::mem::size_of::<Expression<'_>>(), expression_size(right));
            add_size(l, r)
        },
        Expression::Unary { expr, .. } => add_size(
            core::mem::size_of::<Expression<'_>>(),
            expression_size(expr),
        ),
        _ => 0,
    }
}

/// Size of a prefix expression
pub fn prefix_size(p: &PrefixExpression<'_>) -> (res: usize)
    ensures
        res >= sat(least_prefix(*p) as int),
    decreases p,
{
    match p {
        PrefixExpression::Var(var) => add_size(core::mem::size_of::<Var<'_>>(), var_size(var)),
        PrefixExpression::Call(call) => call_size(call),
        PrefixExpression::Expr(expr) => add_size(
            core::mem::size_of::<Expression<'_>>(),
            expression_size(expr),
        ),
    }
}

/// Size of a function call
pub fn call_size(c: &FunctionCall<'_>) -> (res: usize)
    ensures
        res >= sat(least_call(*c) as int),
    decreases c,
{
    let r = add_size(core::mem::size_of::<PrefixExpression<'_>>(), prefix_size(&c.receiver));
    add_size(r, args_size(&c.args))
}

/// Size of the arguments of a call
pub fn args_size(a: &FunctionArgs<'_>) -> (res: usize)
    ensures
        res >= sat(
            match *a {
                FunctionArgs::Call { exprs } => least_exprs(exprs@),
                FunctionArgs::Table { table } => least_fields(table.fields@),
                FunctionArgs::String { .. } => 0,
            } as int,
        ),
    decreases a,
{
    match a {
        FunctionArgs::Call { exprs } => exprs_size(exprs),
        FunctionArgs::Table { table } => field_list_size(table),
        FunctionArgs::String { .. } => 0,
    }
}

/// Size of a function body
pub fn function_size(f: &Function<'_>) -> (res: usize)
    ensures
        res >= sat(least_function(*f) as int),
    decreases f,
{
    add_size(parameters_size(&f.parameters), block_size(&f.body))
}

/// Size of a parameter list
pub fn parameters_size(p: &ParameterList<'_>) -> (res: usize)
    ensures
        res >= sat(least_buffer(p.names@) as int),
{
    buffer_size(&p.names)
}

/// Size of a table constructor
pub fn field_list_size(f: &FieldList<'_>) -> (res: usize)
    ensures
        res >= sat(least_fields(f.fields@) as int),
    decreases f,
{
    fields_size(&f.fields)
}

/// Size of a table field
pub fn field_size(f: &Field<'_>) -> (res: usize)
    ensures
        res >= sat(least_field(*f) as int),
    decreases f,
{
    match f {
        Field::Index { index, expr } => add_size(expression_size(index), expression_size(expr)),
        Field::Assign { expr, .. } => expression_size(expr),
        Field::Exp { expr } => expression_size(expr),
    }
}

impl SizeOf for Block<'_> {
    open spec fn least_size(&self) -> nat {
        least_block(*self)
    }

    fn size(&self) -> usize {
        block_size(self)
    }
}

impl SizeOf for Statement<'_> {
    open spec fn least_size(&self) -> nat {
        least_statement(*self)
    }

    fn size(&self) -> usize {
        statement_size(self)
    }
}

impl SizeOf for Expression<'_> {
    open spec fn least_size(&self) -> nat {
        least_expression(*self)
    }

    fn size(&self) -> usize {
        expression_size(self)
    }
}

} // verus!
