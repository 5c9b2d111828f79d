//! Whether the ids in a name tree refer to entries of its tables.

use vstd::prelude::*;

use crate::name_resolution::name_tree::{
    Block, Expression, Field, FieldList, Function, FunctionArgs, FunctionCall, FunctionName,
    LabelId, NameContainer, PrefixExpression, Statement, StringId, Var, VariableId,
};

verus! {

/// The sizes of the string, variable and label tables that ids refer to
#[derive(Debug, Clone, Copy, PartialEq, Eq, Structural)]
pub struct Tables {
    pub strings: usize,
    pub variables: usize,
    pub labels: usize,
}

/// Whether every id in the list is below `n`
pub open spec fn ids_below(ids: Seq<VariableId>, n: usize) -> bool {
    forall|i: int| 0 <= i < ids.len() ==> (#[trigger] ids[i]).0 < n
}

/// Whether every string id in the list is below `n`
pub open spec fn strings_below(ids: Seq<StringId>, n: usize) -> bool {
    forall|i: int| 0 <= i < ids.len() ==> (#[trigger] ids[i]).0 < n
}

/// Whether the ids of a block refer to entries of the tables
pub open spec fn block_refs(b: Block, t: Tables) -> bool
    decreases b,
{
    &&& statements_refs(b.statements@, t)
    &&& (b.ret_stat matches Some(r) ==> exprs_refs(r.exprs@, t))
    &&& statements_refs(b.close@, t)
}

/// Whether the ids of the statements refer to entries of the tables
pub open spec fn statements_refs(s: Seq<Statement>, t: Tables) -> bool
    decreases s,
{
    s.len() > 0 ==> statement_refs(s[0], t) && statements_refs(s.drop_first(), t)
}

/// Whether the ids of the expressions refer to entries of the tables
pub open spec fn exprs_refs(s: Seq<Expression>, t: Tables) -> bool
    decreases s,
{
    s.len() > 0 ==> expression_refs(s[0], t) && exprs_refs(s.drop_first(), t)
}

/// Whether the ids of the variables refer to entries of the tables
pub open spec fn vars_refs(s: Seq<Var>, t: Tables) -> bool
    decreases s,
{
    s.len() > 0 ==> var_refs(s[0], t) && vars_refs(s.drop_first(), t)
}

/// Whether the ids of the branches refer to entries of the tables
pub open spec fn branches_refs(s: Seq<(Expression, Block)>, t: Tables) -> bool
    decreases s,
{
    s.len() > 0 ==> expression_refs(s[0].0, t) && block_refs(s[0].1, t) && branches_refs(
        s.drop_first(),
        t,
    )
}

/// Whether the ids of the fields refer to entries of the tables
pub open spec fn fields_refs(s: Seq<Field>, t: Tables) -> bool
    decreases s,
{
    s.len() > 0 ==> field_refs(s[0], t) && fields_refs(s.drop_first(), t)
}

/// Whether the ids of a statement refer to entries of the tables
pub open spec fn statement_refs(s: Statement, t: Tables) -> bool
    decreases s,
{
    match s {
        Statement::Empty => true,
        Statement::Assign { vars, exps, .. } => vars_refs(vars@, t) && exprs_refs(exps@, t),
        Statement::Call(call) => call_refs(call, t),
        Statement::Label(l) => l.0 < t.labels,
        Statement::Goto(l) => l.0 < t.labels,
        Statement::Block(b) => block_refs(b, t),
        Statement::While { expr, block } => expression_refs(expr, t) && block_refs(block, t),
        Statement::Repeat { block, expr, block_end } => block_refs(block, t) && expression_refs(
            expr,
            t,
        ) && statements_refs(block_end@, t),
        Statement::If { expr, block, elseif, else_block } => {
            &&& expression_refs(expr, t)
            &&& block_refs(block, t)
            &&& branches_refs(elseif@, t)
            &&& (else_block matches Some(e) ==> block_refs(e, t))
        },
        Statement::For { name, initial, limit, step, block } => {
            &&& name.0 < t.variables
            &&& expression_refs(initial, t)
            &&& expression_refs(limit, t)
            &&& (step matches Some(e) ==> expression_refs(e, t))
            &&& block_refs(block, t)
        },
        Statement::ForEach { names, exprs, block } => ids_below(names@, t.variables) && exprs_refs(
            exprs@,
            t,
        ) && block_refs(block, t),
        Statement::Function { name, body } => function_name_refs(name, t) && function_refs(
            body,
            t,
        ),
        Statement::ScopeStart(v) => v.0 < t.variables,
        Statement::ScopeEnd(v) => v.0 < t.variables,
    }
}

/// Whether the ids of a function name refer to entries of the tables
pub open spec fn function_name_refs(n: FunctionName, t: Tables) -> bool {
    match n {
        FunctionName::DefineLocal { var } => var.0 < t.variables,
        FunctionName::DefineGlobal { env, names } => env.0 < t.variables && strings_below(
            names@,
            t.strings,
        ),
        FunctionName::Path { start, names, method } => {
            &&& start.0 < t.variables
            &&& strings_below(names@, t.strings)
            &&& (method matches Some(m) ==> m.0 < t.strings)
        },
    }
}

/// Whether the ids of a variable refer to entries of the tables
pub open spec fn var_refs(v: Var, t: Tables) -> bool
    decreases v,
{
    match v {
        Var::LocalName(id) => id.0 < t.variables,
        Var::GlobalNames { env, names } => env.0 < t.variables && strings_below(names@, t.strings),
        Var::Index { first, index } => prefix_refs(first, t) && expression_refs(index, t),
        Var::Dot { first, name } => prefix_refs(first, t) && name.0 < t.strings,
    }
}

/// Whether the ids of an expression refer to entries of the tables
pub open spec fn expression_refs(e: Expression, t: Tables) -> bool
    decreases e,
{
    match e {
        Expression::String(s) => s.0 < t.strings,
        Expression::Function(f) => function_refs(f, t),
        Expression::Prefix(p) => prefix_refs(p, t),
        Expression::Table(f) => field_list_refs(f, t),
        Expression::Binary { left, right, .. } => expression_refs(*left, t) && expression_refs(
            *right,
            t,
        ),
        Expression::Unary { expr, .. } => expression_refs(*expr, t),
        _ => true,
    }
}

/// Whether the ids of a prefix expression refer to entries of the tables
pub open spec fn prefix_refs(p: PrefixExpression, t: Tables) -> bool
    decreases p,
{
    match p {
        PrefixExpression::Var(v) => var_refs(*v, t),
        PrefixExpression::Call(c) => call_refs(c, t),
        PrefixExpression::Expr(e) => expression_refs(*e, t),
    }
}

/// Whether the ids of a call refer to entries of the tables
pub open spec fn call_refs(c: FunctionCall, t: Tables) -> bool
    decreases c,
{
    &&& prefix_refs(*c.receiver, t)
    &&& (c.method_name matches Some(m) ==> m.0 < t.strings)
    &&& args_refs(c.args, t)
}

/// Whether the ids of call arguments refer to entries of the tables
pub open spec fn args_refs(a: FunctionArgs, t: Tables) -> bool
    decreases a,
{
    match a {
        FunctionArgs::Call { exprs } => exprs_refs(exprs@, t),
        FunctionArgs::Table { table } => field_list_refs(table, t),
        FunctionArgs::String { value } => value.0 < t.strings,
    }
}

/// Whether the ids of a function refer to entries of the tables
pub open spec fn function_refs(f: Function, t: Tables) -> bool
    decreases f,
{
    &&& (f.parameters.self_var matches Some(v) ==> v.0 < t.variables)
    &&& ids_below(f.parameters.names@, t.variables)
    &&& (f.parameters.var_name matches Some(v) ==> v.0 < t.variables)
    &&& block_refs(f.body, t)
}

/// Whether the ids of a table constructor refer to entries of the tables
pub open spec fn field_list_refs(f: FieldList, t: Tables) -> bool
    decreases f,
{
    fields_refs(f.fields@, t)
}

/// Whether the ids of a table field refer to entries of the tables
pub open spec fn field_refs(f: Field, t: Tables) -> bool
    decreases f,
{
    match f {
        Field::Index { index, expr } => expression_refs(index, t) && expression_refs(expr, t),
        Field::Assign { name, expr } => name.0 < t.strings && expression_refs(expr, t),
        Field::Exp { expr } => expression_refs(expr, t),
    }
}

/// The sizes of the tables of a container
pub open spec fn container_tables(c: NameContainer<Block>) -> Tables {
    Tables {
        strings: c.string_table@.len() as usize,
        variables: c.variable_table@.len() as usize,
        labels: c.label_table@.len() as usize,
    }
}

/// Whether every id in the container refers to an entry of its tables
pub open spec fn container_refs(c: NameContainer<Block>) -> bool {
    let t = container_tables(c);
    &&& c.env.0 < t.variables
    &&& block_refs(c.tree, t)
    &&& forall|i: int| 0 <= i < c.variable_table@.len() ==> (#[trigger] c.variable_table@[i]).name.0
        < t.strings
    &&& forall|i: int|
        0 <= i < c.label_table@.len() ==> ((#[trigger] c.label_table@[i]).name matches Some(n)
            ==> n.0 < t.strings)
}

/// Whether every id in the list is below `n`
fn check_ids(ids: &Vec<VariableId>, n: usize) -> (res: bool)
    ensures
        res == ids_below(ids@, n),
{
    let mut i: usize = 0;
    while i < ids.len()
        invariant
            i <= ids@.len(),
            forall|j: int| 0 <= j < i ==> (#[trigger] ids@[j]).0 < n,
        decreases ids@.len() - i,
    {
        if ids[i].0 as usize >= n {
            return false;
        }
        i = i + 1;
    }
    true
}

/// Whether every string id in the list is below `n`
fn check_strings(ids: &Vec<StringId>, n: usize) -> (res: bool)
    ensures
        res == strings_below(ids@, n),
{
    let mut i: usize = 0;
    while i < ids.len()
        invariant
            i <= ids@.len(),
            forall|j: int| 0 <= j < i ==> (#[trigger] ids@[j]).0 < n,
        decreases ids@.len() - i,
    {
        if ids[i].0 as usize >= n {
            return false;
        }
        i = i + 1;
    }
    true
}

/// Whether the optional id is below `n`
fn check_opt_id(id: Option<VariableId>, n: usize) -> (res: bool)
    ensures
        res == (id matches Some(v) ==> v.0 < n),
{
    match id {
        Some(v) => (v.0 as usize) < n,
        None => true,
    }
}

/// Check a block
fn check_block(b: &Block, t: Tables) -> (res: bool)
    ensures
        res == block_refs(*b, t),
    decreases b, 1nat,
{
    if !check_statements(&b.statements, t) {
        return false;
    }
    let r = match &b.ret_stat {
        Some(r) => check_exprs(&r.exprs, t),
        None => true,
    };
    r && check_statements(&b.close, t)
}

/// Check some statements
fn check_statements(v: &Vec<Statement>, t: Tables) -> (res: bool)
    ensures
        res == statements_refs(v@, t),
    decreases v, 0nat,
{
    let mut i: usize = 0;
    assert(v@.skip(0) =~= v@);
    while i < v.len()
        invariant
            i <= v@.len(),
            statements_refs(v@, t) == statements_refs(v@.skip(i as int), t),
        decreases v@.len() - i,
    {
        proof {
            assert(v@.skip(i as int)[0] == v@[i as int]);
            assert(v@.skip(i as int).drop_first() =~= v@.skip(i + 1));
        }
        if !check_statement(&v[i], t) {
            return false;
        }
        i = i + 1;
    }
    assert(v@.skip(i as int) =~= Seq::<Statement>::empty());
    true
}

/// Check some expressions
fn check_exprs(v: &Vec<Expression>, t: Tables) -> (res: bool)
    ensures
        res == exprs_refs(v@, t),
    decreases v, 0nat,
{
    let mut i: usize = 0;
    assert(v@.skip(0) =~= v@);
    while i < v.len()
        invariant
            i <= v@.len(),
            exprs_refs(v@, t) == exprs_refs(v@.skip(i as int), t),
        decreases v@.len() - i,
    {
        proof {
            assert(v@.skip(i as int)[0] == v@[i as int]);
            assert(v@.skip(i as int).drop_first() =~= v@.skip(i + 1));
        }
        if !check_expression(&v[i], t) {
            return false;
        }
        i = i + 1;
    }
    assert(v@.skip(i as int) =~= Seq::<Expression>::empty());
    true
}

/// Check some variables
fn check_vars(v: &Vec<Var>, t: Tables) -> (res: bool)
    ensures
        res == vars_refs(v@, t),
    decreases v, 0nat,
{
    let mut i: usize = 0;
    assert(v@.skip(0) =~= v@);
    while i < v.len()
        invariant
            i <= v@.len(),
            vars_refs(v@, t) == vars_refs(v@.skip(i as int), t),
        decreases v@.len() - i,
    {
        proof {
            assert(v@.skip(i as int)[0] == v@[i as int]);
            assert(v@.skip(i as int).drop_first() =~= v@.skip(i + 1));
        }
        if !check_var(&v[i], t) {
            return false;
        }
        i = i + 1;
    }
    assert(v@.skip(i as int) =~= Seq::<Var>::empty());
    true
}

/// Check some branches
fn check_branches(v: &Vec<(Expression, Block)>, t: Tables) -> (res: bool)
    ensures
        res == branches_refs(v@, t),
    decreases v, 0nat,
{
    let mut i: usize = 0;
    assert(v@.skip(0) =~= v@);
    while i < v.len()
        invariant
            i <= v@.len(),
            branches_refs(v@, t) == branches_refs(v@.skip(i as int), t),
        decreases v@.len() - i,
    {
        proof {
            assert(v@.skip(i as int)[0] == v@[i as int]);
            assert(v@.skip(i as int).drop_first() =~= v@.skip(i + 1));
        }
        if !check_expression(&v[i].0, t) || !check_block(&v[i].1, t) {
            return false;
        }
        i = i + 1;
    }
    assert(v@.skip(i as int) =~= Seq::<(Expression, Block)>::empty());
    true
}

/// Check some table fields
fn check_fields(v: &Vec<Field>, t: Tables) -> (res: bool)
    ensures
        res == fields_refs(v@, t),
    decreases v, 0nat,
{
    let mut i: usize = 0;
    assert(v@.skip(0) =~= v@);
    while i < v.len()
        invariant
            i <= v@.len(),
            fields_refs(v@, t) == fields_refs(v@.skip(i as int), t),
        decreases v@.len() - i,
    {
        proof {
            assert(v@.skip(i as int)[0] == v@[i as int]);
            assert(v@.skip(i as int).drop_first() =~= v@.skip(i + 1));
        }
        if !check_field(&v[i], t) {
            return false;
        }
        i = i + 1;
    }
    assert(v@.skip(i as int) =~= Seq::<Field>::empty());
    true
}

/// Check a statement
fn check_statement(s: &Statement, t: Tables) -> (res: bool)
    ensures
        res == statement_refs(*s, t),
    decreases s, 1nat,
{
    match s {
        Statement::Empty => true,
        Statement::Assign { vars, exps, .. } => check_vars(vars, t) && check_exprs(exps, t),
        Statement::Call(call) => check_call(call, t),
        Statement::Label(l) => (l.0 as usize) < t.labels,
        Statement::Goto(l) => (l.0 as usize) < t.labels,
        Statement::Block(b) => check_block(b, t),
        Statement::While { expr, block } => check_expression(expr, t) && check_block(block, t),
        Statement::Repeat { block, expr, block_end } => check_block(block, t) && check_expression(
            expr,
            t,
        ) && check_statements(block_end, t),
        Statement::If { expr, block, elseif, else_block } => {
            if !check_expression(expr, t) || !check_block(block, t) || !check_branches(elseif, t) {
                return false;
            }
            match else_block {
                Some(e) => check_block(e, t),
                None => true,
            }
        },
        Statement::For { name, initial, limit, step, block } => {
            if (name.0 as usize) >= t.variables || !check_expression(initial, t)
                || !check_expression(limit, t) {
                return false;
            }
            let s_ok = match step {
                Some(e) => check_expression(e, t),
                None => true,
            };
            s_ok && check_block(block, t)
        },
        Statement::ForEach { names, exprs, block } => check_ids(names, t.variables) && check_exprs(
            exprs,
            t,
        ) && check_block(block, t),
        Statement::Function { name, body } => check_function_name(name, t) && check_function(
            body,
            t,
        ),
        Statement::ScopeStart(v) => (v.0 as usize) < t.variables,
        Statement::ScopeEnd(v) => (v.0 as usize) < t.variables,
    }
}

/// Check a function name
fn check_function_name(n: &FunctionName, t: Tables) -> (res: bool)
    ensures
        res == function_name_refs(*n, t),
{
    match n {
        FunctionName::DefineLocal { var } => (var.0 as usize) < t.variables,
        FunctionName::DefineGlobal { env, names } => (env.0 as usize) < t.variables
            && check_strings(names, t.strings),
        FunctionName::Path { start, names, method } => {
            let m = match method {
                Some(m) => (m.0 as usize) < t.strings,
                None => true,
            };
            (start.0 as usize) < t.variables && check_strings(names, t.strings) && m
        },
    }
}

/// Check a variable
fn check_var(v: &Var, t: Tables) -> (res: bool)
    ensures
        res == var_refs(*v, t),
    decreases v, 1nat,
{
    match v {
        Var::LocalName(id) => (id.0 as usize) < t.variables,
        Var::GlobalNames { env, names } => (env.0 as usize) < t.variables && check_strings(
            names,
            t.strings,
        ),
        Var::Index { first, index } => check_prefix(first, t) && check_expression(index, t),
        Var::Dot { first, name } => check_prefix(first, t) && (name.0 as usize) < t.strings,
    }
}

/// Check an expression
fn check_expression(e: &Expression, t: Tables) -> (res: bool)
    ensures
        res == expression_refs(*e, t),
    decreases e, 1nat,
{
    match e {
        Expression::String(s) => (s.0 as usize) < t.strings,
        Expression::Function(f) => check_function(f, t),
        Expression::Prefix(p) => check_prefix(p, t),
        Expression::Table(f) => check_field_list(f, t),
        Expression::Binary { left, right, .. } => check_expression(left, t) && check_expression(
            right,
            t,
        ),
        Expression::Unary { expr, .. } => check_expression(expr, t),
        _ => true,
    }
}

/// Check a prefix expression
fn check_prefix(p: &PrefixExpression, t: Tables) -> (res: bool)
    ensures
        res == prefix_refs(*p, t),
    decreases p, 1nat,
{
    match p {
        PrefixExpression::Var(v) => check_var(v, t),
        PrefixExpression::Call(c) => check_call(c, t),
        PrefixExpression::Expr(e) => check_expression(e, t),
    }
}

/// Check a call
fn check_call(c: &FunctionCall, t: Tables) -> (res: bool)
    ensures
        res == call_refs(*c, t),
    decreases c, 1nat,
{
    let m = match c.method_name {
        Some(m) => (m.0 as usize) < t.strings,
        None => true,
    };
    m && check_prefix(&c.receiver, t) && check_args(&c.args, t)
}

/// Check the arguments of a call
fn check_args(a: &FunctionArgs, t: Tables) -> (res: bool)
    ensures
        res == args_refs(*a, t),
    decreases a, 1nat,
{
    match a {
        FunctionArgs::Call { exprs } => check_exprs(exprs, t),
        FunctionArgs::Table { table } => check_field_list(table, t),
        FunctionArgs::String { value } => (value.0 as usize) < t.strings,
    }
}

/// Check a table constructor
fn check_field_list(f: &FieldList, t: Tables) -> (res: bool)
    ensures
        res == field_list_refs(*f, t),
    decreases f, 1nat,
{
    check_fields(&f.fields, t)
}

/// Check a function
fn check_function(f: &Function, t: Tables) -> (res: bool)
    ensures
        res == function_refs(*f, t),
    decreases f, 1nat,
{
    check_opt_id(f.parameters.self_var, t.variables) && check_ids(
        &f.parameters.names,
        t.variables,
    ) && check_opt_id(f.parameters.var_name, t.variables) && check_block(&f.body, t)
}

/// Check a table field
fn check_field(f: &Field, t: Tables) -> (res: bool)
    ensures
        res == field_refs(*f, t),
    decreases f, 1nat,
{
    match f {
        Field::Index { index, expr } => check_expression(index, t) && check_expression(expr, t),
        Field::Assign { name, expr } => (name.0 as usize) < t.strings && check_expression(expr, t),
        Field::Exp { expr } => check_expression(expr, t),
    }
}

/// Whether every id in the container refers to an entry of its tables
pub fn check_container(c: &NameContainer<Block>) -> (res: bool)
    ensures
        res == container_refs(*c),
{
    let t = Tables {
        strings: c.string_table.len(),
        variables: c.variable_table.len(),
        labels: c.label_table.len(),
    };
    if (c.env.0 as usize) >= t.variables || !check_block(&c.tree, t) {
        return false;
    }
    let mut i: usize = 0;
    while i < c.variable_table.len()
        invariant
            i <= c.variable_table@.len(),
            t == container_tables(*c),
            forall|j: int| 0 <= j < i ==> (#[trigger] c.variable_table@[j]).name.0 < t.strings,
        decreases c.variable_table@.len() - i,
    {
        if (c.variable_table[i].name.0 as usize) >= t.strings {
            return false;
        }
        i = i + 1;
    }
    let mut i: usize = 0;
    while i < c.label_table.len()
        invariant
            i <= c.label_table@.len(),
            t == container_tables(*c),
            forall|j: int|
                0 <= j < i ==> ((#[trigger] c.label_table@[j]).name matches Some(n) ==> n.0
                    < t.strings),
        decreases c.label_table@.len() - i,
    {
        if let Some(n) = c.label_table[i].name {
            if (n.0 as usize) >= t.strings {
                return false;
            }
        }
        i = i + 1;
    }
    true
}

/// Every table of `t1` is at most as long as that of `t2`
pub open spec fn tables_le(t1: Tables, t2: Tables) -> bool {
    t1.strings <= t2.strings && t1.variables <= t2.variables && t1.labels <= t2.labels
}

/// The ids of a block still refer to entries of longer tables
pub proof fn lemma_block_refs_mono(b: Block, t1: Tables, t2: Tables)
    requires
        block_refs(b, t1),
        tables_le(t1, t2),
    ensures
        block_refs(b, t2),
    decreases b, 1nat,
{
    lemma_statements_refs_mono(b.statements@, t1, t2);
    if let Some(r) = b.ret_stat {
        lemma_exprs_refs_mono(r.exprs@, t1, t2);
    }
    lemma_statements_refs_mono(b.close@, t1, t2);
}

/// The ids of some statements still refer to entries of longer tables
pub proof fn lemma_statements_refs_mono(s: Seq<Statement>, t1: Tables, t2: Tables)
    requires
        statements_refs(s, t1),
        tables_le(t1, t2),
    ensures
        statements_refs(s, t2),
    decreases s, 0nat,
{
    if s.len() > 0 {
        lemma_statement_refs_mono(s[0], t1, t2);
        lemma_statements_refs_mono(s.drop_first(), t1, t2);
    }
}

/// The ids of some expressions still refer to entries of longer tables
pub proof fn lemma_exprs_refs_mono(s: Seq<Expression>, t1: Tables, t2: Tables)
    requires
        exprs_refs(s, t1),
        tables_le(t1, t2),
    ensures
        exprs_refs(s, t2),
    decreases s, 0nat,
{
    if s.len() > 0 {
        lemma_expression_refs_mono(s[0], t1, t2);
        lemma_exprs_refs_mono(s.drop_first(), t1, t2);
    }
}

/// The ids of some variables still refer to entries of longer tables
pub proof fn lemma_vars_refs_mono(s: Seq<Var>, t1: Tables, t2: Tables)
    requires
        vars_refs(s, t1),
        tables_le(t1, t2),
    ensures
        vars_refs(s, t2),
    decreases s, 0nat,
{
    if s.len() > 0 {
        lemma_var_refs_mono(s[0], t1, t2);
        lemma_vars_refs_mono(s.drop_first(), t1, t2);
    }
}

/// The ids of some branches still refer to entries of longer tables
pub proof fn lemma_branches_refs_mono(s: Seq<(Expression, Block)>, t1: Tables, t2: Tables)
    requires
        branches_refs(s, t1),
        tables_le(t1, t2),
    ensures
        branches_refs(s, t2),
    decreases s, 0nat,
{
    if s.len() > 0 {
        lemma_expression_refs_mono(s[0].0, t1, t2);
        lemma_block_refs_mono(s[0].1, t1, t2);
        lemma_branches_refs_mono(s.drop_first(), t1, t2);
    }
}

/// The ids of some table fields still refer to entries of longer tables
pub proof fn lemma_fields_refs_mono(s: Seq<Field>, t1: Tables, t2: Tables)
    requires
        fields_refs(s, t1),
        tables_le(t1, t2),
    ensures
        fields_refs(s, t2),
    decreases s, 0nat,
{
    if s.len() > 0 {
        lemma_field_refs_mono(s[0], t1, t2);
        lemma_fields_refs_mono(s.drop_first(), t1, t2);
    }
}

/// The ids of a statement still refer to entries of longer tables
pub proof fn lemma_statement_refs_mono(s: Statement, t1: Tables, t2: Tables)
    requires
        statement_refs(s, t1),
        tables_le(t1, t2),
    ensures
        statement_refs(s, t2),
    decreases s, 1nat,
{
    match s {
        Statement::Assign { vars, exps, .. } => {
            lemma_vars_refs_mono(vars@, t1, t2);
            lemma_exprs_refs_mono(exps@, t1, t2);
        },
        Statement::Call(call) => lemma_call_refs_mono(call, t1, t2),
        Statement::Block(b) => lemma_block_refs_mono(b, t1, t2),
        Statement::While { expr, block } => {
            lemma_expression_refs_mono(expr, t1, t2);
            lemma_block_refs_mono(block, t1, t2);
        },
        Statement::Repeat { block, expr, block_end } => {
            lemma_block_refs_mono(block, t1, t2);
            lemma_expression_refs_mono(expr, t1, t2);
            lemma_statements_refs_mono(block_end@, t1, t2);
        },
        Statement::If { expr, block, elseif, else_block } => {
            lemma_expression_refs_mono(expr, t1, t2);
            lemma_block_refs_mono(block, t1, t2);
            lemma_branches_refs_mono(elseif@, t1, t2);
            if let Some(e) = else_block {
                lemma_block_refs_mono(e, t1, t2);
            }
        },
        Statement::For { initial, limit, step, block, .. } => {
            lemma_expression_refs_mono(initial, t1, t2);
            lemma_expression_refs_mono(limit, t1, t2);
            if let Some(e) = step {
                lemma_expression_refs_mono(e, t1, t2);
            }
            lemma_block_refs_mono(block, t1, t2);
        },
        Statement::ForEach { exprs, block, .. } => {
            lemma_exprs_refs_mono(exprs@, t1, t2);
            lemma_block_refs_mono(block, t1, t2);
        },
        Statement::Function { body, .. } => {
            lemma_function_refs_mono(body, t1, t2);
        },
        _ => {},
    }
}

/// The ids of a variable still refer to entries of longer tables
pub proof fn lemma_var_refs_mono(v: Var, t1: Tables, t2: Tables)
    requires
        var_refs(v, t1),
        tables_le(t1, t2),
    ensures
        var_refs(v, t2),
    decreases v, 1nat,
{
    match v {
        Var::Index { first, index } => {
            lemma_prefix_refs_mono(first, t1, t2);
            lemma_expression_refs_mono(index, t1, t2);
        },
        Var::Dot { first, .. } => lemma_prefix_refs_mono(first, t1, t2),
        _ => {},
    }
}

/// The ids of an expression still refer to entries of longer tables
pub proof fn lemma_expression_refs_mono(e: Expression, t1: Tables, t2: Tables)
    requires
        expression_refs(e, t1),
        tables_le(t1, t2),
    ensures
        expression_refs(e, t2),
    decreases e, 1nat,
{
    match e {
        Expression::Function(f) => lemma_function_refs_mono(f, t1, t2),
        Expression::Prefix(p) => lemma_prefix_refs_mono(p, t1, t2),
        Expression::Table(f) => lemma_field_list_refs_mono(f, t1, t2),
        Expression::Binary { left, right, .. } => {
            lemma_expression_refs_mono(*left, t1, t2);
            lemma_expression_refs_mono(*right, t1, t2);
        },
        Expression::Unary { expr, .. } => lemma_expression_refs_mono(*expr, t1, t2),
        _ => {},
    }
}

/// The ids of a prefix expression still refer to entries of longer tables
pub proof fn lemma_prefix_refs_mono(p: PrefixExpression, t1: Tables, t2: Tables)
    requires
        prefix_refs(p, t1),
        tables_le(t1, t2),
    ensures
        prefix_refs(p, t2),
    decreases p, 1nat,
{
    match p {
        PrefixExpression::Var(v) => lemma_var_refs_mono(*v, t1, t2),
        PrefixExpression::Call(c) => lemma_call_refs_mono(c, t1, t2),
        PrefixExpression::Expr(e) => lemma_expression_refs_mono(*e, t1, t2),
    }
}

/// The ids of a call still refer to entries of longer tables
pub proof fn lemma_call_refs_mono(c: FunctionCall, t1: Tables, t2: Tables)
    requires
        call_refs(c, t1),
        tables_le(t1, t2),
    ensures
        call_refs(c, t2),
    decreases c, 1nat,
{
    lemma_prefix_refs_mono(*c.receiver, t1, t2);
    lemma_args_refs_mono(c.args, t1, t2);
}

/// The ids of call arguments still refer to entries of longer tables
pub proof fn lemma_args_refs_mono(a: FunctionArgs, t1: Tables, t2: Tables)
    requires
        args_refs(a, t1),
        tables_le(t1, t2),
    ensures
        args_refs(a, t2),
    decreases a, 1nat,
{
    match a {
        FunctionArgs::Call { exprs } => lemma_exprs_refs_mono(exprs@, t1, t2),
        FunctionArgs::Table { table } => lemma_field_list_refs_mono(table, t1, t2),
        _ => {},
    }
}

/// The ids of a function still refer to entries of longer tables
pub proof fn lemma_function_refs_mono(f: Function, t1: Tables, t2: Tables)
    requires
        function_refs(f, t1),
        tables_le(t1, t2),
    ensures
        function_refs(f, t2),
    decreases f, 1nat,
{
    lemma_block_refs_mono(f.body, t1, t2);
}

/// The ids of a table constructor still refer to entries of longer tables
pub proof fn lemma_field_list_refs_mono(f: FieldList, t1: Tables, t2: Tables)
    requires
        field_list_refs(f, t1),
        tables_le(t1, t2),
    ensures
        field_list_refs(f, t2),
    decreases f, 1nat,
{
    lemma_fields_refs_mono(f.fields@, t1, t2);
}

/// The ids of a table field still refer to entries of longer tables
pub proof fn lemma_field_refs_mono(f: Field, t1: Tables, t2: Tables)
    requires
        field_refs(f, t1),
        tables_le(t1, t2),
    ensures
        field_refs(f, t2),
    decreases f, 1nat,
{
    match f {
        Field::Index { index, expr } => {
            lemma_expression_refs_mono(index, t1, t2);
            lemma_expression_refs_mono(expr, t1, t2);
        },
        Field::Assign { expr, .. } => lemma_expression_refs_mono(expr, t1, t2),
        Field::Exp { expr } => lemma_expression_refs_mono(expr, t1, t2),
    }
}

/// The statements of two lists refer to the tables when those of each do
pub proof fn lemma_statements_refs_add(a: Seq<Statement>, b: Seq<Statement>, t: Tables)
    requires
        statements_refs(a, t),
        statements_refs(b, t),
    ensures
        statements_refs(a + b, t),
    decreases a.len(),
{
    if a.len() > 0 {
        lemma_statements_refs_add(a.drop_first(), b, t);
        let c = a + b;
        assert(c.drop_first() =~= a.drop_first() + b);
        assert(statements_refs(c.drop_first(), t));
        assert(c[0] == a[0]);
    } else {
        assert(a + b =~= b);
    }
}

/// A list of one statement refers to the tables when the statement does
pub proof fn lemma_statements_refs_one(s: Statement, t: Tables)
    requires
        statement_refs(s, t),
    ensures
        statements_refs(seq![s], t),
{
    let c = seq![s];
    assert(c.drop_first() =~= Seq::<Statement>::empty());
    assert(statements_refs(Seq::<Statement>::empty(), t));
    assert(statements_refs(c.drop_first(), t));
}

/// Pushing an expression that refers to the tables keeps a list referring
pub proof fn lemma_exprs_refs_push(a: Seq<Expression>, e: Expression, t: Tables)
    requires
        exprs_refs(a, t),
        expression_refs(e, t),
    ensures
        exprs_refs(a.push(e), t),
    decreases a.len(),
{
    let b = a.push(e);
    if a.len() > 0 {
        lemma_exprs_refs_push(a.drop_first(), e, t);
        assert(b.drop_first() =~= a.drop_first().push(e));
        assert(exprs_refs(b.drop_first(), t));
        assert(b[0] == a[0]);
    } else {
        assert(b.drop_first() =~= Seq::<Expression>::empty());
        assert(exprs_refs(Seq::<Expression>::empty(), t));
        assert(exprs_refs(b.drop_first(), t));
    }
}

/// Pushing a variable that refers to the tables keeps a list referring
pub proof fn lemma_vars_refs_push(a: Seq<Var>, v: Var, t: Tables)
    requires
        vars_refs(a, t),
        var_refs(v, t),
    ensures
        vars_refs(a.push(v), t),
    decreases a.len(),
{
    let c = a.push(v);
    if a.len() > 0 {
        lemma_vars_refs_push(a.drop_first(), v, t);
        assert(c.drop_first() =~= a.drop_first().push(v));
        assert(vars_refs(c.drop_first(), t));
        assert(c[0] == a[0]);
    } else {
        assert(c.drop_first() =~= Seq::<Var>::empty());
        assert(vars_refs(Seq::<Var>::empty(), t));
        assert(vars_refs(c.drop_first(), t));
    }
}

/// Pushing a field that refers to the tables keeps a list referring
pub proof fn lemma_fields_refs_push(a: Seq<Field>, f: Field, t: Tables)
    requires
        fields_refs(a, t),
        field_refs(f, t),
    ensures
        fields_refs(a.push(f), t),
    decreases a.len(),
{
    let c = a.push(f);
    if a.len() > 0 {
        lemma_fields_refs_push(a.drop_first(), f, t);
        assert(c.drop_first() =~= a.drop_first().push(f));
        assert(fields_refs(c.drop_first(), t));
        assert(c[0] == a[0]);
    } else {
        assert(c.drop_first() =~= Seq::<Field>::empty());
        assert(fields_refs(Seq::<Field>::empty(), t));
        assert(fields_refs(c.drop_first(), t));
    }
}

/// Pushing a branch that refers to the tables keeps a list referring
pub proof fn lemma_branches_refs_push(a: Seq<(Expression, Block)>, b: (Expression, Block), t: Tables)
    requires
        branches_refs(a, t),
        expression_refs(b.0, t),
        block_refs(b.1, t),
    ensures
        branches_refs(a.push(b), t),
    decreases a.len(),
{
    let c = a.push(b);
    if a.len() > 0 {
        lemma_branches_refs_push(a.drop_first(), b, t);
        assert(c.drop_first() =~= a.drop_first().push(b));
        assert(branches_refs(c.drop_first(), t));
        assert(c[0] == a[0]);
    } else {
        assert(c.drop_first() =~= Seq::<(Expression, Block)>::empty());
        assert(branches_refs(Seq::<(Expression, Block)>::empty(), t));
        assert(branches_refs(c.drop_first(), t));
    }
}


/// `new` is `old` followed by statements whose ids refer to entries of `t`
pub open spec fn appends_refs(old: Seq<Statement>, new: Seq<Statement>, t: Tables) -> bool {
    &&& old.len() <= new.len()
    &&& new.take(old.len() as int) == old
    &&& statements_refs(new.skip(old.len() as int), t)
}

/// A list of statements each of which refers to the tables refers to them
pub proof fn lemma_statements_refs_all(s: Seq<Statement>, t: Tables)
    requires
        forall|i: int| 0 <= i < s.len() ==> statement_refs(#[trigger] s[i], t),
    ensures
        statements_refs(s, t),
    decreases s.len(),
{
    if s.len() > 0 {
        let r = s.drop_first();
        assert forall|i: int| 0 <= i < r.len() implies statement_refs(#[trigger] r[i], t) by {
            assert(r[i] == s[i + 1]);
        }
        lemma_statements_refs_all(r, t);
        assert(statement_refs(s[0], t));
    } else {
        assert(statements_refs(s, t));
    }
}

/// Appending nothing appends only statements that refer to the tables
pub proof fn lemma_appends_none(a: Seq<Statement>, t: Tables)
    ensures
        appends_refs(a, a, t),
{
    assert(a.take(a.len() as int) =~= a);
    assert(a.skip(a.len() as int) =~= Seq::<Statement>::empty());
    assert(statements_refs(Seq::<Statement>::empty(), t));
}

/// Appending a statement that refers to the tables, to what was appended
/// before under smaller tables
pub proof fn lemma_appends_push(a: Seq<Statement>, b: Seq<Statement>, s: Statement, t1: Tables, t2: Tables)
    requires
        appends_refs(a, b, t1),
        tables_le(t1, t2),
        statement_refs(s, t2),
    ensures
        appends_refs(a, b.push(s), t2),
{
    let n = a.len() as int;
    let c = b.push(s);
    assert(c.take(n) =~= b.take(n));
    lemma_statements_refs_mono(b.skip(n), t1, t2);
    lemma_statements_refs_one(s, t2);
    lemma_statements_refs_add(b.skip(n), seq![s], t2);
    assert(c.skip(n) =~= b.skip(n) + seq![s]);
}

/// Appending one statement that refers to the tables
pub proof fn lemma_appends_one(a: Seq<Statement>, s: Statement, t: Tables)
    requires
        statement_refs(s, t),
    ensures
        appends_refs(a, a.push(s), t),
{
    lemma_appends_none(a, t);
    lemma_appends_push(a, a, s, t, t);
}

/// Statements that refer to smaller tables, followed by statements that
/// refer to the tables, refer to the tables
pub proof fn lemma_appends_refs(a: Seq<Statement>, b: Seq<Statement>, t1: Tables, t2: Tables)
    requires
        statements_refs(a, t1),
        appends_refs(a, b, t2),
        tables_le(t1, t2),
    ensures
        statements_refs(b, t2),
{
    lemma_statements_refs_mono(a, t1, t2);
    lemma_statements_refs_add(a, b.skip(a.len() as int), t2);
    assert(b =~= b.take(a.len() as int) + b.skip(a.len() as int));
}

} // verus!
