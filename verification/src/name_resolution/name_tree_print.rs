//! Pretty printer for name trees

use vstd::prelude::*;

use crate::name_resolution::name_tree::{
    Block, Expression, Field, FieldList, Function, FunctionArgs, FunctionCall, FunctionName,
    Label, LabelId, Local, NameContainer, Number, ParameterList, PrefixExpression,
    ReturnStatement, Statement, StringId, Var, VariableId,
};
use crate::name_resolution::name_tree_refs::{
    args_refs, block_refs, branches_refs, call_refs, check_container, container_refs,
    container_tables, expression_refs, exprs_refs, field_list_refs, field_refs, fields_refs,
    function_name_refs, function_refs, ids_below, prefix_refs, statement_refs, statements_refs,
    strings_below, var_refs, vars_refs, Tables,
};
use crate::name_resolution::name_tree_size::{
    block_size, call_size, container_size, expression_size, exprs_size, field_size, fields_size,
    function_name_size, function_size, prefix_size, statement_size, statements_size, var_size,
    vars_size,
};
use crate::parser::ast::{self, binary_name, unary_name};
use crate::utils::bstr::{bstr_ok, bstr_printable, bstr_text, push_bstr};
use crate::utils::size_of::{add_size, buffer_size};
use crate::utils::tree_print::{
    child_frame, count_with, float_line, last_frame, line_of, named, nth_frame, Frame, TreeCtx,
};
use crate::utils::{digits, push_chars, push_digits, push_str, visible, Piece};

verus! {

/// The tables that a printed name tree refers to: its strings, variables
/// and labels
pub type Names = (Seq<Vec<u8>>, Seq<Local>, Seq<Label>);

/// Whether every string of the table can be printed
pub open spec fn strings_printable(strings: Seq<Vec<u8>>) -> bool {
    forall|i: int| 0 <= i < strings.len() ==> bstr_ok((#[trigger] strings[i])@, 0)
}

/// Whether a character is an ASCII letter or digit, or `_`
pub open spec fn is_word_char(c: char) -> bool {
    ('a' <= c <= 'z') || ('A' <= c <= 'Z') || ('0' <= c <= '9') || c == '_'
}

/// A name as printed: in quotes unless it is made of word characters only
pub open spec fn quoted_name(s: Seq<char>) -> Seq<char> {
    if forall|i: int| 0 <= i < s.len() ==> is_word_char(#[trigger] s[i]) {
        s
    } else {
        seq!['"'] + s + seq!['"']
    }
}

/// The printable form of a string of the table
pub open spec fn display(n: Names, id: StringId) -> Seq<char> {
    bstr_text(n.0[id.0 as int]@, 0)
}

/// The printed string
pub open spec fn string_text(f: Frame, n: Names, id: StringId) -> Seq<Piece> {
    line_of(f, seq!['"'] + display(n, id) + seq!['"'], None)
}

/// The printed variable: `%`, its name, `.` and the id of its name
pub open spec fn variable_text(f: Frame, n: Names, id: VariableId) -> Seq<Piece> {
    let v = n.1[id.0 as int];
    line_of(
        f,
        seq!['%'] + quoted_name(display(n, v.name)) + seq!['.'] + digits(v.name.0 as nat, 10, false),
        None,
    )
}

/// The printed label: `@`, its name, `.` and its id
pub open spec fn label_text(f: Frame, n: Names, id: LabelId) -> Seq<Piece> {
    let l = n.2[id.0 as int];
    line_of(
        f,
        seq!['@'] + (match l.name {
            Some(s) => quoted_name(display(n, s)),
            None => Seq::empty(),
        }) + seq!['.'] + digits(id.0 as nat, 10, false),
        None,
    )
}

/// The printed number of entries
pub open spec fn usize_text(f: Frame, k: usize) -> Seq<Piece> {
    line_of(f, digits(k as nat, 10, false), None)
}

/// The printed boolean
pub open spec fn bool_text(f: Frame, b: bool) -> Seq<Piece> {
    line_of(
        f,
        if b {
            "True"@
        } else {
            "False"@
        },
        None,
    )
}

/// The printed number literal
pub open spec fn number_text(f: Frame, num: Number) -> Seq<Piece> {
    match num {
        Number::Integer(k) => line_of(f, "Integer "@ + digits(k as nat, 10, false), None),
        Number::Float(t) => float_line(f, "Float "@, t@),
    }
}

/// The printed variables from the `i`th on, as children of a node of `count`
/// children
pub open spec fn variables_items(f: Frame, n: Names, v: Seq<VariableId>, count: usize, i: int) -> Seq<Piece>
    decreases v.len() - i,
{
    if i < 0 || i >= v.len() {
        Seq::empty()
    } else {
        variable_text(nth_frame(f, i + 1 == count), n, v[i]) + variables_items(f, n, v, count, i + 1)
    }
}

/// The printed list of variables
pub open spec fn variables_text(f: Frame, n: Names, v: Seq<VariableId>) -> Seq<Piece>
{
    line_of(f, "List"@, Some(v.len() as usize)) + variables_items(f, n, v, v.len() as usize, 0)
}

/// The printed strings from the `i`th on, as children of a node of `count`
/// children
pub open spec fn strings_items(f: Frame, n: Names, v: Seq<StringId>, count: usize, i: int) -> Seq<Piece>
    decreases v.len() - i,
{
    if i < 0 || i >= v.len() {
        Seq::empty()
    } else {
        string_text(nth_frame(f, i + 1 == count), n, v[i]) + strings_items(f, n, v, count, i + 1)
    }
}

/// The printed list of strings
pub open spec fn strings_text(f: Frame, n: Names, v: Seq<StringId>) -> Seq<Piece>
{
    line_of(f, "List"@, Some(v.len() as usize)) + strings_items(f, n, v, v.len() as usize, 0)
}

/// The printed name of a function statement
pub open spec fn function_name_text(f: Frame, n: Names, name: FunctionName) -> Seq<Piece> {
    match name {
        FunctionName::DefineLocal { var } => variable_text(named(f, "Define Local"@), n, var),
        FunctionName::DefineGlobal { env, names } => line_of(f, "Define Global"@, None)
            + variable_text(named(child_frame(f), "Environment"@), n, env) + strings_text(
            named(last_frame(f), "Path"@),
            n,
            names@,
        ),
        FunctionName::Path { start, names, method } => line_of(f, "Assignment"@, None)
            + variable_text(named(child_frame(f), "Root"@), n, start) + match method {
            Some(m) => strings_text(named(child_frame(f), "Path"@), n, names@) + string_text(
                named(last_frame(f), "Method"@),
                n,
                m,
            ),
            None => strings_text(named(last_frame(f), "Path"@), n, names@),
        },
    }
}

/// The number of children of a parameter list
pub open spec fn parameters_count(p: ParameterList) -> usize {
    count_with(count_with(p.names@.len(), p.self_var is Some) as nat, p.var_name is Some)
}

/// The printed parameter list
pub open spec fn parameters_text(f: Frame, n: Names, p: ParameterList) -> Seq<Piece> {
    let count = parameters_count(p);
    line_of(f, "Parameters"@, Some(count)) + (match p.self_var {
        Some(v) => variable_text(named(last_frame(f), "Self var"@), n, v),
        None => Seq::empty(),
    }) + variables_items(f, n, p.names@, count, 0) + (match p.var_name {
        Some(v) => variable_text(named(last_frame(f), "Var args"@), n, v),
        None => Seq::empty(),
    })
}

/// The number of children of a block, without the closed variables
pub open spec fn block_count(b: Block) -> usize {
    count_with(b.statements@.len(), b.ret_stat is Some)
}

/// The printed block
pub open spec fn block_text(f: Frame, n: Names, b: Block) -> Seq<Piece>
    decreases b, 0nat,
{
    let count = block_count(b);
    let full = count_with(count as nat, b.close@.len() != 0);
    line_of(f, "Block"@, Some(count)) + statements_items(f, n, b.statements@, full, 0) + (
    match b.ret_stat {
        Some(r) => exprs_text(named(nth_frame(f, b.close@.len() == 0), "Return"@), n, r.exprs@),
        None => Seq::empty(),
    }) + if b.close@.len() != 0 {
        statements_text(named(last_frame(f), "Closed Variables"@), n, b.close@)
    } else {
        Seq::empty()
    }
}

/// The printed list of statements
pub open spec fn statements_text(f: Frame, n: Names, v: Seq<Statement>) -> Seq<Piece>
    decreases v, v.len() + 1,
{
    line_of(f, "List"@, Some(v.len() as usize)) + statements_items(f, n, v, v.len() as usize, 0)
}

/// The printed statements from the `i`th on, as children of a node of `count`
/// children
pub open spec fn statements_items(f: Frame, n: Names, v: Seq<Statement>, count: usize, i: int) -> Seq<Piece>
    decreases v, v.len() - i,
{
    if i < 0 || i >= v.len() {
        Seq::empty()
    } else {
        statement_text(nth_frame(f, i + 1 == count), n, v[i]) + statements_items(f, n, v, count, i + 1)
    }
}

/// The printed list of expressions
pub open spec fn exprs_text(f: Frame, n: Names, v: Seq<Expression>) -> Seq<Piece>
    decreases v, v.len() + 1,
{
    line_of(f, "List"@, Some(v.len() as usize)) + exprs_items(f, n, v, v.len() as usize, 0)
}

/// The printed expressions from the `i`th on, as children of a node of `count`
/// children
pub open spec fn exprs_items(f: Frame, n: Names, v: Seq<Expression>, count: usize, i: int) -> Seq<Piece>
    decreases v, v.len() - i,
{
    if i < 0 || i >= v.len() {
        Seq::empty()
    } else {
        expression_text(nth_frame(f, i + 1 == count), n, v[i]) + exprs_items(f, n, v, count, i + 1)
    }
}

/// The printed list of variables
pub open spec fn vars_text(f: Frame, n: Names, v: Seq<Var>) -> Seq<Piece>
    decreases v, v.len() + 1,
{
    line_of(f, "List"@, Some(v.len() as usize)) + vars_items(f, n, v, v.len() as usize, 0)
}

/// The printed variables from the `i`th on, as children of a node of `count`
/// children
pub open spec fn vars_items(f: Frame, n: Names, v: Seq<Var>, count: usize, i: int) -> Seq<Piece>
    decreases v, v.len() - i,
{
    if i < 0 || i >= v.len() {
        Seq::empty()
    } else {
        var_text(nth_frame(f, i + 1 == count), n, v[i]) + vars_items(f, n, v, count, i + 1)
    }
}

/// The printed list of table fields
pub open spec fn fields_text(f: Frame, n: Names, v: Seq<Field>) -> Seq<Piece>
    decreases v, v.len() + 1,
{
    line_of(f, "List"@, Some(v.len() as usize)) + fields_items(f, n, v, v.len() as usize, 0)
}

/// The printed table fields from the `i`th on, as children of a node of `count`
/// children
pub open spec fn fields_items(f: Frame, n: Names, v: Seq<Field>, count: usize, i: int) -> Seq<Piece>
    decreases v, v.len() - i,
{
    if i < 0 || i >= v.len() {
        Seq::empty()
    } else {
        field_text(nth_frame(f, i + 1 == count), n, v[i]) + fields_items(f, n, v, count, i + 1)
    }
}

/// The printed `elseif` branches from the `i`th on, in an if statement of
/// `count` children
pub open spec fn branches_items(
    f: Frame,
    n: Names,
    v: Seq<(Expression, Block)>,
    count: usize,
    i: int,
) -> Seq<Piece>
    decreases v, v.len() - i,
{
    if i < 0 || i >= v.len() {
        Seq::empty()
    } else {
        let bf = nth_frame(f, count >= 2 && i == count - 2);
        line_of(bf, "Branch"@, None) + expression_text(
            named(child_frame(bf), "Condition"@),
            n,
            v[i].0,
        ) + block_text(last_frame(bf), n, v[i].1) + branches_items(f, n, v, count, i + 1)
    }
}

/// The printed branch of an if statement
pub open spec fn branch_text(f: Frame, n: Names, e: Expression, b: Block) -> Seq<Piece> {
    line_of(f, "Branch"@, None) + expression_text(named(child_frame(f), "Condition"@), n, e)
        + block_text(last_frame(f), n, b)
}

/// The printed statement
pub open spec fn statement_text(f: Frame, n: Names, s: Statement) -> Seq<Piece>
    decreases s, 0nat,
{
    match s {
        Statement::Empty => line_of(f, "Empty Statement"@, None),
        Statement::Assign { vars, exps, is_global_init } => line_of(f, "Assign"@, None) + bool_text(
            named(child_frame(f), "Init Globals"@),
            is_global_init,
        ) + vars_text(named(child_frame(f), "Variables"@), n, vars@) + exprs_text(
            named(last_frame(f), "Expressions"@),
            n,
            exps@,
        ),
        Statement::Call(call) => call_text(f, n, call),
        Statement::Label(l) => label_text(named(f, "Label"@), n, l),
        Statement::Goto(l) => label_text(named(f, "Goto"@), n, l),
        Statement::Block(b) => block_text(f, n, b),
        Statement::While { expr, block } => line_of(f, "While"@, None) + expression_text(
            named(child_frame(f), "Condition"@),
            n,
            expr,
        ) + block_text(last_frame(f), n, block),
        Statement::Repeat { block, expr, block_end } => line_of(f, "Repeat"@, None) + block_text(
            child_frame(f),
            n,
            block,
        ) + if block_end@.len() == 0 {
            expression_text(named(last_frame(f), "Condition"@), n, expr)
        } else {
            expression_text(named(child_frame(f), "Condition"@), n, expr) + statements_text(
                named(last_frame(f), "Closed Variables"@),
                n,
                block_end@,
            )
        },
        Statement::If { expr, block, elseif, else_block } => {
            let count = if else_block is Some {
                count_with(elseif@.len() + 1, true)
            } else {
                count_with(elseif@.len(), true)
            };
            let bf = nth_frame(f, count == 1);
            line_of(f, "If"@, Some(count)) + (line_of(bf, "Branch"@, None) + expression_text(
                named(child_frame(bf), "Condition"@),
                n,
                expr,
            ) + block_text(last_frame(bf), n, block)) + branches_items(f, n, elseif@, count, 0) + (
            match else_block {
                Some(e) => block_text(named(last_frame(f), "Else"@), n, e),
                None => Seq::empty(),
            })
        },
        Statement::For { name, initial, limit, step, block } => line_of(f, "For"@, None)
            + variable_text(named(child_frame(f), "Name"@), n, name) + expression_text(
            named(child_frame(f), "Initial"@),
            n,
            initial,
        ) + expression_text(named(child_frame(f), "Limit"@), n, limit) + (match step {
            Some(e) => expression_text(named(child_frame(f), "Step"@), n, e),
            None => Seq::empty(),
        }) + block_text(last_frame(f), n, block),
        Statement::ForEach { names, exprs, block } => line_of(f, "For Each"@, None)
            + variables_text(named(child_frame(f), "Names"@), n, names@) + exprs_text(
            named(child_frame(f), "Values"@),
            n,
            exprs@,
        ) + block_text(last_frame(f), n, block),
        Statement::Function { name, body } => line_of(f, "Function"@, None) + function_name_text(
            named(child_frame(f), "Name"@),
            n,
            name,
        ) + function_text(last_frame(f), n, body),
        Statement::ScopeStart(id) => variable_text(named(f, "Scope Start"@), n, id),
        Statement::ScopeEnd(id) => variable_text(named(f, "Scope End"@), n, id),
    }
}

/// The printed variable reference
pub open spec fn var_text(f: Frame, n: Names, v: Var) -> Seq<Piece>
    decreases v, 0nat,
{
    match v {
        Var::LocalName(id) => variable_text(named(f, "Local"@), n, id),
        Var::GlobalNames { env, names } => line_of(f, "Global"@, None) + variable_text(
            named(child_frame(f), "Environment"@),
            n,
            env,
        ) + strings_text(last_frame(f), n, names@),
        Var::Index { first, index } => line_of(f, "Index"@, None) + prefix_text(
            named(child_frame(f), "Base"@),
            n,
            first,
        ) + expression_text(named(last_frame(f), "Index"@), n, index),
        Var::Dot { first, name } => line_of(f, "Dot Access"@, None) + prefix_text(
            named(child_frame(f), "Base"@),
            n,
            first,
        ) + string_text(named(last_frame(f), "Value"@), n, name),
    }
}

/// The printed expression
pub open spec fn expression_text(f: Frame, n: Names, e: Expression) -> Seq<Piece>
    decreases e, 0nat,
{
    match e {
        Expression::Nil => line_of(f, "Nil"@, None),
        Expression::Bool(b) => bool_text(f, b),
        Expression::Number(num) => number_text(f, num),
        Expression::String(id) => string_text(named(f, "String"@), n, id),
        Expression::Function(func) => function_text(f, n, func),
        Expression::Prefix(p) => prefix_text(f, n, p),
        Expression::Table(fl) => fields_text(named(named(f, "Table"@), "Fields"@), n, fl.fields@),
        Expression::Binary { left, op, right } => line_of(f, "Binary"@, None) + expression_text(
            named(child_frame(f), "Left"@),
            n,
            *left,
        ) + line_of(named(child_frame(f), "Op"@), binary_name(op), None) + expression_text(
            named(last_frame(f), "Right"@),
            n,
            *right,
        ),
        Expression::Unary { expr, op } => line_of(f, "Unary"@, None) + line_of(
            named(child_frame(f), "Op"@),
            unary_name(op),
            None,
        ) + expression_text(last_frame(f), n, *expr),
    }
}

/// The printed prefix expression
pub open spec fn prefix_text(f: Frame, n: Names, p: PrefixExpression) -> Seq<Piece>
    decreases p, 0nat,
{
    match p {
        PrefixExpression::Var(v) => var_text(f, n, *v),
        PrefixExpression::Call(c) => call_text(f, n, c),
        PrefixExpression::Expr(e) => line_of(f, "Parenthesised"@, None) + expression_text(
            last_frame(f),
            n,
            *e,
        ),
    }
}

/// The printed function call
pub open spec fn call_text(f: Frame, n: Names, c: FunctionCall) -> Seq<Piece>
    decreases c, 0nat,
{
    line_of(f, "Call"@, None) + prefix_text(named(child_frame(f), "Receiver"@), n, *c.receiver) + (
    match c.method_name {
        Some(m) => string_text(named(child_frame(f), "Method"@), n, m),
        None => Seq::empty(),
    }) + args_text(last_frame(f), n, c.args)
}

/// The printed arguments of a call
pub open spec fn args_text(f: Frame, n: Names, a: FunctionArgs) -> Seq<Piece>
    decreases a, 0nat,
{
    match a {
        FunctionArgs::Call { exprs } => exprs_text(named(f, "Arguments"@), n, exprs@),
        FunctionArgs::Table { table } => fields_text(
            named(named(f, "Table Arg"@), "Fields"@),
            n,
            table.fields@,
        ),
        FunctionArgs::String { value } => string_text(named(f, "String Arg"@), n, value),
    }
}

/// The printed function
pub open spec fn function_text(f: Frame, n: Names, func: Function) -> Seq<Piece>
    decreases func, 0nat,
{
    line_of(f, "Function"@, None) + parameters_text(child_frame(f), n, func.parameters)
        + block_text(last_frame(f), n, func.body)
}

/// The printed table field
pub open spec fn field_text(f: Frame, n: Names, fd: Field) -> Seq<Piece>
    decreases fd, 0nat,
{
    match fd {
        Field::Index { index, expr } => line_of(f, "Index Field"@, None) + expression_text(
            named(child_frame(f), "Index"@),
            n,
            index,
        ) + expression_text(named(last_frame(f), "Value"@), n, expr),
        Field::Assign { name, expr } => line_of(f, "Assign Field"@, None) + string_text(
            named(child_frame(f), "Name"@),
            n,
            name,
        ) + expression_text(named(last_frame(f), "Value"@), n, expr),
        Field::Exp { expr } => expression_text(named(f, "Expr Field"@), n, expr),
    }
}

/// The printed container: its tables' sizes, then its tree
pub open spec fn container_text(f: Frame, n: Names, c: NameContainer<Block>) -> Seq<Piece> {
    line_of(f, "Container"@, None) + variable_text(named(child_frame(f), "Env"@), n, c.env)
        + usize_text(named(child_frame(f), "Strings"@), c.string_table@.len() as usize)
        + usize_text(named(child_frame(f), "Variables"@), c.variable_table@.len() as usize)
        + usize_text(named(child_frame(f), "Labels"@), c.label_table@.len() as usize) + block_text(
        last_frame(f),
        n,
        c.tree,
    )
}

/// Pretty printer for all name tree nodes
pub struct NtPrint<'a, T> {
    node: &'a T,
    tree: TreeCtx,
    strings: &'a [Vec<u8>],
    variables: &'a [Local],
    labels: &'a [Label],
}

impl<'a> NtPrint<'a, NameContainer<Block>> {
    /// Create a new node printer
    pub fn new(container: &'a NameContainer<Block>) -> (res: Self)
        requires
            container_refs(*container),
            strings_printable(container.string_table@),
        ensures
            res.node() == container,
            res.ok(),
            res.tables() == container_tables(*container),
            res.names() == (container.string_table@, container.variable_table@, container.label_table@),
            res.frame() == (Seq::<char>::empty(), Seq::<char>::empty(), "Name Tree"@),
    {
        let mut tree = TreeCtx::new(container);
        tree.name("Name Tree");
        let res = Self {
            node: container,
            tree,
            strings: container.string_table.as_slice(),
            variables: container.variable_table.as_slice(),
            labels: container.label_table.as_slice(),
        };
        assert(res.frame() =~= (Seq::<char>::empty(), Seq::<char>::empty(), "Name Tree"@));
        res
    }

    /// Whether the container can be printed: every id in it refers to an
    /// entry of its tables, and every string can be printed
    pub fn printable(container: &NameContainer<Block>) -> (res: bool)
        ensures
            res == (container_refs(*container) && strings_printable(container.string_table@)),
    {
        if !check_container(container) {
            return false;
        }
        let mut i: usize = 0;
        while i < container.string_table.len()
            invariant
                i <= container.string_table@.len(),
                forall|j: int| 0 <= j < i ==> bstr_ok((#[trigger] container.string_table@[j])@, 0),
            decreases container.string_table@.len() - i,
        {
            if !bstr_printable(container.string_table[i].as_slice()) {
                return false;
            }
            i = i + 1;
        }
        true
    }

    /// The printed tree of the container
    pub fn pieces(&self) -> (out: Vec<Piece>)
        requires
            self.ok(),
            container_refs(*self.node()),
            self.tables() == container_tables(*self.node()),
        ensures
            visible(out@) == container_text(self.frame(), self.names(), *self.node()),
    {
        let mut out: Vec<Piece> = Vec::new();
        proof {
            assert(visible(out@) =~= Seq::<Piece>::empty());
        }
        self.print_container(&mut out);
        proof {
            assert(visible(out@) =~= container_text(self.frame(), self.names(), *self.node()));
        }
        out
    }

    /// Display a container
    fn print_container(&self, out: &mut Vec<Piece>)
        requires
            self.ok(),
            container_refs(*self.node),
            self.tables() == container_tables(*self.node),
        ensures
            visible(final(out)@) == visible(old(out)@) + container_text(self.frame(), self.names(), *self.node),
    {
        let c = self.node;
        self.emit(out, "Container", None, container_size(c));
        self.child(&c.env).name("Env").print_variable(out);
        let strings = c.string_table.len();
        let variables = c.variable_table.len();
        let labels = c.label_table.len();
        self.child(&strings).name("Strings").print_usize(out);
        self.child(&variables).name("Variables").print_usize(out);
        self.child(&labels).name("Labels").print_usize(out);
        self.last(&c.tree).print_block(out);
        proof {
            assert(visible(out@) =~= visible(old(out)@) + container_text(self.frame(), self.names(), *self.node));
        }
    }
}

impl<'a, T> NtPrint<'a, T> {
    /// The node being printed
    pub closed spec fn node(&self) -> &'a T {
        self.node
    }

    /// Where in the tree the node is printed
    pub closed spec fn frame(&self) -> Frame {
        self.tree.frame()
    }

    /// The tables that the node refers to
    pub closed spec fn names(&self) -> Names {
        (self.strings@, self.variables@, self.labels@)
    }

    /// The sizes of the tables that the node refers to
    pub closed spec fn tables(&self) -> Tables {
        Tables {
            strings: self.strings@.len() as usize,
            variables: self.variables@.len() as usize,
            labels: self.labels@.len() as usize,
        }
    }

    /// The tables can be printed: each string can, and the names of the
    /// variables and labels are in the string table.
    pub closed spec fn ok(&self) -> bool {
        &&& strings_printable(self.strings@)
        &&& forall|i: int|
            0 <= i < self.variables@.len() ==> (#[trigger] self.variables@[i]).name.0
                < self.strings@.len()
        &&& forall|i: int|
            0 <= i < self.labels@.len() ==> ((#[trigger] self.labels@[i]).name matches Some(n)
                ==> n.0 < self.strings@.len())
    }

    /// Display a non-last-child element of this node
    fn child<U>(&self, child: &'a U) -> (res: NtPrint<'a, U>)
        ensures
            res.node == child,
            res.strings == self.strings,
            res.variables == self.variables,
            res.labels == self.labels,
            res.frame() == child_frame(self.frame()),
    {
        NtPrint {
            node: child,
            tree: self.tree.child(),
            strings: self.strings,
            variables: self.variables,
            labels: self.labels,
        }
    }

    /// Display the last child of this node
    fn last<U>(&self, last: &'a U) -> (res: NtPrint<'a, U>)
        ensures
            res.node == last,
            res.strings == self.strings,
            res.variables == self.variables,
            res.labels == self.labels,
            res.frame() == last_frame(self.frame()),
    {
        NtPrint {
            node: last,
            tree: self.tree.last(),
            strings: self.strings,
            variables: self.variables,
            labels: self.labels,
        }
    }

    /// Display a child of this node, the last one or not
    fn nth<U>(&self, child: &'a U, is_last: bool) -> (res: NtPrint<'a, U>)
        ensures
            res.node == child,
            res.strings == self.strings,
            res.variables == self.variables,
            res.labels == self.labels,
            res.frame() == nth_frame(self.frame(), is_last),
    {
        if is_last {
            self.last(child)
        } else {
            self.child(child)
        }
    }

    /// Set the name of this node
    fn name(self, name: &str) -> (res: Self)
        ensures
            res.node == self.node,
            res.strings == self.strings,
            res.variables == self.variables,
            res.labels == self.labels,
            res.frame() == named(self.frame(), name@),
    {
        let mut tree = self.tree;
        tree.name(name);
        NtPrint {
            node: self.node,
            tree,
            strings: self.strings,
            variables: self.variables,
            labels: self.labels,
        }
    }

    /// Swap the content without changing levels
    fn swap<U>(&self, swap: &'a U) -> (res: NtPrint<'a, U>)
        ensures
            res.node == swap,
            res.strings == self.strings,
            res.variables == self.variables,
            res.labels == self.labels,
            res.frame() == self.frame(),
    {
        NtPrint {
            node: swap,
            tree: self.tree.duplicate(),
            strings: self.strings,
            variables: self.variables,
            labels: self.labels,
        }
    }

    /// Display the line of this node, with a node count
    fn emit(&self, out: &mut Vec<Piece>, value: &str, len: Option<usize>, size: usize)
        ensures
            visible(final(out)@) == visible(old(out)@) + line_of(self.frame(), value@, len),
    {
        let mut v: Vec<char> = Vec::new();
        push_str(&mut v, value);
        self.tree.print_sized(out, v.as_slice(), len, size);
    }

    /// Display the line of this node, described by some characters
    fn emit_chars(&self, out: &mut Vec<Piece>, value: &[char], len: Option<usize>, size: usize)
        ensures
            visible(final(out)@) == visible(old(out)@) + line_of(self.frame(), value@, len),
    {
        self.tree.print_sized(out, value, len, size);
    }

    /// Get a printable version of a string from the name tree.  No quotation
    /// marks, un-printable characters are escaped.
    fn display_string(&self, id: StringId) -> (res: Vec<char>)
        requires
            self.ok(),
            id.0 < self.strings@.len(),
        ensures
            res@ == display(self.names(), id),
    {
        let mut out: Vec<char> = Vec::new();
        push_bstr(&mut out, self.strings[id.0 as usize].as_slice());
        assert(out@ =~= display(self.names(), id));
        out
    }

    /// Append a name, in quotes unless it is made of word characters only
    fn push_name(&self, line: &mut Vec<char>, name: &[char])
        ensures
            final(line)@ == old(line)@ + quoted_name(name@),
    {
        let mut word = true;
        let mut i: usize = 0;
        while i < name.len()
            invariant
                i <= name@.len(),
                word == forall|j: int| 0 <= j < i ==> is_word_char(#[trigger] name@[j]),
            decreases name@.len() - i,
        {
            let c = name[i];
            let w = ('a' <= c && c <= 'z') || ('A' <= c && c <= 'Z') || ('0' <= c && c <= '9')
                || c == '_';
            if !w {
                word = false;
            }
            i = i + 1;
        }
        let ghost start = line@;
        if word {
            push_chars(line, name);
        } else {
            line.push('"');
            push_chars(line, name);
            line.push('"');
            assert(line@ =~= start + quoted_name(name@));
        }
    }
}

impl<'a> NtPrint<'a, usize> {
    /// Display a number
    fn print_usize(&self, out: &mut Vec<Piece>)
        ensures
            visible(final(out)@) == visible(old(out)@) + usize_text(self.frame(), *self.node),
    {
        let mut v: Vec<char> = Vec::new();
        push_digits(&mut v, *self.node as u64, 10, false);
        assert(v@ =~= digits(*self.node as nat, 10, false));
        self.emit_chars(out, v.as_slice(), None, 0);
    }
}

impl<'a> NtPrint<'a, bool> {
    /// Display a boolean
    fn print_bool(&self, out: &mut Vec<Piece>)
        ensures
            visible(final(out)@) == visible(old(out)@) + bool_text(self.frame(), *self.node),
    {
        if *self.node {
            self.emit(out, "True", None, 0);
        } else {
            self.emit(out, "False", None, 0);
        }
    }
}

impl<'a> NtPrint<'a, StringId> {
    /// Display a string
    fn print_string(&self, out: &mut Vec<Piece>)
        requires
            self.ok(),
            self.node.0 < self.strings@.len(),
        ensures
            visible(final(out)@) == visible(old(out)@) + string_text(self.frame(), self.names(), *self.node),
    {
        let mut v: Vec<char> = Vec::new();
        v.push('"');
        let s = self.display_string(*self.node);
        push_chars(&mut v, s.as_slice());
        v.push('"');
        assert(v@ =~= seq!['"'] + display(self.names(), *self.node) + seq!['"']);
        self.emit_chars(out, v.as_slice(), None, 0);
    }
}

impl<'a> NtPrint<'a, VariableId> {
    /// Display a variable: `%`, its name, `.` and the id of its name
    fn print_variable(&self, out: &mut Vec<Piece>)
        requires
            self.ok(),
            self.node.0 < self.variables@.len(),
        ensures
            visible(final(out)@) == visible(old(out)@) + variable_text(self.frame(), self.names(), *self.node),
    {
        let var = &self.variables[self.node.0 as usize];
        let name = self.display_string(var.name);
        let mut v: Vec<char> = Vec::new();
        v.push('%');
        self.push_name(&mut v, name.as_slice());
        v.push('.');
        push_digits(&mut v, var.name.0 as u64, 10, false);
        assert(v@ =~= seq!['%'] + quoted_name(display(self.names(), var.name)) + seq!['.'] + digits(
            var.name.0 as nat,
            10,
            false,
        ));
        self.emit_chars(out, v.as_slice(), None, 0);
    }
}

impl<'a> NtPrint<'a, LabelId> {
    /// Display a label: `@`, its name, `.` and its id
    fn print_label(&self, out: &mut Vec<Piece>)
        requires
            self.ok(),
            self.node.0 < self.labels@.len(),
        ensures
            visible(final(out)@) == visible(old(out)@) + label_text(self.frame(), self.names(), *self.node),
    {
        let label = &self.labels[self.node.0 as usize];
        let mut v: Vec<char> = Vec::new();
        v.push('@');
        let ghost a = v@;
        if let Some(id) = label.name {
            let name = self.display_string(id);
            self.push_name(&mut v, name.as_slice());
        }
        let ghost b = v@;
        v.push('.');
        push_digits(&mut v, self.node.0 as u64, 10, false);
        assert(v@ =~= seq!['@'] + (match label.name {
            Some(s) => quoted_name(display(self.names(), s)),
            None => Seq::empty(),
        }) + seq!['.'] + digits(self.node.0 as nat, 10, false));
        self.emit_chars(out, v.as_slice(), None, 0);
    }
}

impl<'a> NtPrint<'a, Number> {
    /// Display a number
    fn print_number(&self, out: &mut Vec<Piece>)
        ensures
            visible(final(out)@) == visible(old(out)@) + number_text(self.frame(), *self.node),
    {
        match self.node {
            Number::Integer(num) => {
                let mut v: Vec<char> = Vec::new();
                push_str(&mut v, "Integer ");
                push_digits(&mut v, *num, 10, false);
                self.emit_chars(out, v.as_slice(), None, 0);
            },
            Number::Float(text) => {
                let mut v: Vec<char> = Vec::new();
                push_str(&mut v, "Float ");
                self.tree.print_float_sized(out, v.as_slice(), text.as_slice(), 0);
            },
        }
    }
}

impl<'a> NtPrint<'a, Vec<VariableId>> {
    /// Display the variables of a list, as children of a node of `count`
    /// children
    fn print_variable_items(&self, out: &mut Vec<Piece>, count: usize)
        requires
            self.ok(),
            ids_below(self.node@, self.tables().variables),
        ensures
            visible(final(out)@) == visible(old(out)@) + variables_items(self.frame(), self.names(), self.node@, count, 0),
    {
        let v = self.node;
        let ghost start = out@;
        let mut i: usize = 0;
        while i < v.len()
            invariant
                self.node == v, ids_below(v@, self.tables().variables),
                self.ok(),
                i <= v@.len(),
                visible(out@) + variables_items(self.frame(), self.names(), v@, count, i as int) == visible(start)
                    + variables_items(self.frame(), self.names(), v@, count, 0),
            decreases v@.len() - i,
        {
            let ghost before = out@;
            if i + 1 == count {
                self.last(&v[i]).print_variable(out);
            } else {
                self.child(&v[i]).print_variable(out);
            }
            proof {
                let t = visible(out@);
                assert(t + variables_items(self.frame(), self.names(), v@, count, i + 1) =~= visible(before) + variables_items(
                    self.frame(),
                    self.names(),
                    v@,
                    count,
                    i as int,
                ));
            }
            i = i + 1;
        }
        proof {
            assert(visible(out@) =~= visible(start) + variables_items(self.frame(), self.names(), v@, count, 0));
        }
    }

    /// Display a list of variables
    fn print_variables(&self, out: &mut Vec<Piece>)
        requires
            self.ok(),
            ids_below(self.node@, self.tables().variables),
        ensures
            visible(final(out)@) == visible(old(out)@) + variables_text(self.frame(), self.names(), self.node@),
    {
        let count = self.node.len();
        self.emit(out, "List", Some(count), buffer_size(self.node));
        self.print_variable_items(out, count);
        proof {
            assert(visible(out@) =~= visible(old(out)@) + variables_text(self.frame(), self.names(), self.node@));
        }
    }
}

impl<'a> NtPrint<'a, Vec<StringId>> {
    /// Display a list of strings
    fn print_strings(&self, out: &mut Vec<Piece>)
        requires
            self.ok(),
            strings_below(self.node@, self.tables().strings),
        ensures
            visible(final(out)@) == visible(old(out)@) + strings_text(self.frame(), self.names(), self.node@),
    {
        let v = self.node;
        let count = v.len();
        self.emit(out, "List", Some(count), buffer_size(v));
        let ghost first = out@;
        let mut i: usize = 0;
        while i < v.len()
            invariant
                self.node == v, strings_below(v@, self.tables().strings),
                self.ok(),
                i <= v@.len(),
                visible(out@) + strings_items(self.frame(), self.names(), v@, count, i as int) == visible(first)
                    + strings_items(self.frame(), self.names(), v@, count, 0),
            decreases v@.len() - i,
        {
            let ghost before = out@;
            if i + 1 == count {
                self.last(&v[i]).print_string(out);
            } else {
                self.child(&v[i]).print_string(out);
            }
            proof {
                let t = visible(out@);
                assert(t + strings_items(self.frame(), self.names(), v@, count, i + 1) =~= visible(before) + strings_items(
                    self.frame(),
                    self.names(),
                    v@,
                    count,
                    i as int,
                ));
            }
            i = i + 1;
        }
        proof {
            assert(visible(out@) =~= visible(first) + strings_items(self.frame(), self.names(), v@, count, 0));
        }
        proof {
            assert(visible(out@) =~= visible(old(out)@) + strings_text(self.frame(), self.names(), self.node@));
        }
    }
}

impl<'a> NtPrint<'a, Vec<Statement>> {
    /// Display a list of statements
    fn print_statements(&self, out: &mut Vec<Piece>)
        requires
            self.ok(),
            statements_refs(self.node@, self.tables()),
        ensures
            visible(final(out)@) == visible(old(out)@) + statements_text(self.frame(), self.names(), self.node@),
        decreases *self.node, 1nat,
    {
        let v = self.node;
        let count = v.len();
        self.emit(out, "List", Some(count), statements_size(v));
        let ghost first = out@;
        proof {
            assert(v@.skip(0) =~= v@);
        }
        let mut i: usize = 0;
        while i < v.len()
            invariant
                self.node == v,
                self.ok(),
                i <= v@.len(),
                statements_refs(v@.skip(i as int), self.tables()),
                visible(out@) + statements_items(self.frame(), self.names(), v@, count, i as int) == visible(first)
                    + statements_items(self.frame(), self.names(), v@, count, 0),
            decreases v@.len() - i,
        {
            proof {
                assert(v@.skip(i as int)[0] == v@[i as int]);
                assert(v@.skip(i as int).drop_first() =~= v@.skip(i + 1));
            }
            let ghost before = out@;
            if i + 1 == count {
                self.last(&v[i]).print_statement(out);
            } else {
                self.child(&v[i]).print_statement(out);
            }
            proof {
                let t = visible(out@);
                assert(t + statements_items(self.frame(), self.names(), v@, count, i + 1) =~= visible(before) + statements_items(
                    self.frame(),
                    self.names(),
                    v@,
                    count,
                    i as int,
                ));
            }
            i = i + 1;
        }
        proof {
            assert(visible(out@) =~= visible(first) + statements_items(self.frame(), self.names(), v@, count, 0));
        }
        proof {
            assert(visible(out@) =~= visible(old(out)@) + statements_text(self.frame(), self.names(), self.node@));
        }
    }
}

impl<'a> NtPrint<'a, Vec<Expression>> {
    /// Display a list of expressions
    fn print_exprs(&self, out: &mut Vec<Piece>)
        requires
            self.ok(),
            exprs_refs(self.node@, self.tables()),
        ensures
            visible(final(out)@) == visible(old(out)@) + exprs_text(self.frame(), self.names(), self.node@),
        decreases *self.node, 1nat,
    {
        let v = self.node;
        let count = v.len();
        self.emit(out, "List", Some(count), exprs_size(v));
        let ghost first = out@;
        proof {
            assert(v@.skip(0) =~= v@);
        }
        let mut i: usize = 0;
        while i < v.len()
            invariant
                self.node == v,
                self.ok(),
                i <= v@.len(),
                exprs_refs(v@.skip(i as int), self.tables()),
                visible(out@) + exprs_items(self.frame(), self.names(), v@, count, i as int) == visible(first)
                    + exprs_items(self.frame(), self.names(), v@, count, 0),
            decreases v@.len() - i,
        {
            proof {
                assert(v@.skip(i as int)[0] == v@[i as int]);
                assert(v@.skip(i as int).drop_first() =~= v@.skip(i + 1));
            }
            let ghost before = out@;
            if i + 1 == count {
                self.last(&v[i]).print_expression(out);
            } else {
                self.child(&v[i]).print_expression(out);
            }
            proof {
                let t = visible(out@);
                assert(t + exprs_items(self.frame(), self.names(), v@, count, i + 1) =~= visible(before) + exprs_items(
                    self.frame(),
                    self.names(),
                    v@,
                    count,
                    i as int,
                ));
            }
            i = i + 1;
        }
        proof {
            assert(visible(out@) =~= visible(first) + exprs_items(self.frame(), self.names(), v@, count, 0));
        }
        proof {
            assert(visible(out@) =~= visible(old(out)@) + exprs_text(self.frame(), self.names(), self.node@));
        }
    }
}

impl<'a> NtPrint<'a, Vec<Var>> {
    /// Display a list of variables
    fn print_vars(&self, out: &mut Vec<Piece>)
        requires
            self.ok(),
            vars_refs(self.node@, self.tables()),
        ensures
            visible(final(out)@) == visible(old(out)@) + vars_text(self.frame(), self.names(), self.node@),
        decreases *self.node, 1nat,
    {
        let v = self.node;
        let count = v.len();
        self.emit(out, "List", Some(count), vars_size(v));
        let ghost first = out@;
        proof {
            assert(v@.skip(0) =~= v@);
        }
        let mut i: usize = 0;
        while i < v.len()
            invariant
                self.node == v,
                self.ok(),
                i <= v@.len(),
                vars_refs(v@.skip(i as int), self.tables()),
                visible(out@) + vars_items(self.frame(), self.names(), v@, count, i as int) == visible(first)
                    + vars_items(self.frame(), self.names(), v@, count, 0),
            decreases v@.len() - i,
        {
            proof {
                assert(v@.skip(i as int)[0] == v@[i as int]);
                assert(v@.skip(i as int).drop_first() =~= v@.skip(i + 1));
            }
            let ghost before = out@;
            if i + 1 == count {
                self.last(&v[i]).print_var(out);
            } else {
                self.child(&v[i]).print_var(out);
            }
            proof {
                let t = visible(out@);
                assert(t + vars_items(self.frame(), self.names(), v@, count, i + 1) =~= visible(before) + vars_items(
                    self.frame(),
                    self.names(),
                    v@,
                    count,
                    i as int,
                ));
            }
            i = i + 1;
        }
        proof {
            assert(visible(out@) =~= visible(first) + vars_items(self.frame(), self.names(), v@, count, 0));
        }
        proof {
            assert(visible(out@) =~= visible(old(out)@) + vars_text(self.frame(), self.names(), self.node@));
        }
    }
}

impl<'a> NtPrint<'a, Vec<Field>> {
    /// Display a list of table fields
    fn print_fields(&self, out: &mut Vec<Piece>)
        requires
            self.ok(),
            fields_refs(self.node@, self.tables()),
        ensures
            visible(final(out)@) == visible(old(out)@) + fields_text(self.frame(), self.names(), self.node@),
        decreases *self.node, 1nat,
    {
        let v = self.node;
        let count = v.len();
        self.emit(out, "List", Some(count), fields_size(v));
        let ghost first = out@;
        proof {
            assert(v@.skip(0) =~= v@);
        }
        let mut i: usize = 0;
        while i < v.len()
            invariant
                self.node == v,
                self.ok(),
                i <= v@.len(),
                fields_refs(v@.skip(i as int), self.tables()),
                visible(out@) + fields_items(self.frame(), self.names(), v@, count, i as int) == visible(first)
                    + fields_items(self.frame(), self.names(), v@, count, 0),
            decreases v@.len() - i,
        {
            proof {
                assert(v@.skip(i as int)[0] == v@[i as int]);
                assert(v@.skip(i as int).drop_first() =~= v@.skip(i + 1));
            }
            let ghost before = out@;
            if i + 1 == count {
                self.last(&v[i]).print_field(out);
            } else {
                self.child(&v[i]).print_field(out);
            }
            proof {
                let t = visible(out@);
                assert(t + fields_items(self.frame(), self.names(), v@, count, i + 1) =~= visible(before) + fields_items(
                    self.frame(),
                    self.names(),
                    v@,
                    count,
                    i as int,
                ));
            }
            i = i + 1;
        }
        proof {
            assert(visible(out@) =~= visible(first) + fields_items(self.frame(), self.names(), v@, count, 0));
        }
        proof {
            assert(visible(out@) =~= visible(old(out)@) + fields_text(self.frame(), self.names(), self.node@));
        }
    }
}

impl<'a> NtPrint<'a, Block> {
    /// Display a block
    fn print_block(&self, out: &mut Vec<Piece>)
        requires
            self.ok(),
            block_refs(*self.node, self.tables()),
        ensures
            visible(final(out)@) == visible(old(out)@) + block_text(self.frame(), self.names(), *self.node),
        decreases *self.node, 1nat,
    {
        let b = self.node;
        let count: usize = if b.ret_stat.is_some() {
            b.statements.len().saturating_add(1)
        } else {
            b.statements.len()
        };
        self.emit(out, "Block", Some(count), block_size(b));
        let full_count: usize = if b.close.len() != 0 {
            count.saturating_add(1)
        } else {
            count
        };
        let ghost first = out@;
        proof {
            assert(b.statements@.skip(0) =~= b.statements@);
        }
        let mut i: usize = 0;
        while i < b.statements.len()
            invariant
                self.node == b,
                self.ok(),
                i <= b.statements@.len(),
                statements_refs(b.statements@.skip(i as int), self.tables()),
                visible(out@) + statements_items(self.frame(), self.names(), b.statements@, full_count, i as int) == visible(first)
                    + statements_items(self.frame(), self.names(), b.statements@, full_count, 0),
            decreases b.statements@.len() - i,
        {
            proof {
                assert(b.statements@.skip(i as int)[0] == b.statements@[i as int]);
                assert(b.statements@.skip(i as int).drop_first() =~= b.statements@.skip(i + 1));
            }
            let ghost before = out@;
            if i + 1 == full_count {
                self.last(&b.statements[i]).print_statement(out);
            } else {
                self.child(&b.statements[i]).print_statement(out);
            }
            proof {
                let t = visible(out@);
                assert(t + statements_items(self.frame(), self.names(), b.statements@, full_count, i + 1) =~= visible(before) + statements_items(
                    self.frame(),
                    self.names(),
                    b.statements@,
                    full_count,
                    i as int,
                ));
            }
            i = i + 1;
        }
        proof {
            assert(visible(out@) =~= visible(first) + statements_items(self.frame(), self.names(), b.statements@, full_count, 0));
        }
        if let Some(ret) = &b.ret_stat {
            self.nth(ret, b.close.len() == 0).print_return(out);
        }
        if b.close.len() != 0 {
            self.last(&b.close).name("Closed Variables").print_statements(out);
        }
        proof {
            assert(visible(out@) =~= visible(old(out)@) + block_text(self.frame(), self.names(), *self.node));
        }
    }

    /// Display a branch of an if statement: its condition, then this block
    fn print_branch(&self, out: &mut Vec<Piece>, s: &'a Statement, expr: &'a Expression)
        requires
            self.ok(),
            block_refs(*self.node, self.tables()),
            expression_refs(*expr, self.tables()),
            decreases_to!(*s => *expr),
            decreases_to!(*s => *self.node),
        ensures
            visible(final(out)@) == visible(old(out)@) + branch_text(self.frame(), self.names(), *expr, *self.node),
        decreases *s, 0nat,
    {
        let size = add_size(expression_size(expr), block_size(self.node));
        self.emit(out, "Branch", None, size);
        self.child(expr).name("Condition").print_expression(out);
        self.last(self.node).print_block(out);
        proof {
            assert(visible(out@) =~= visible(old(out)@) + branch_text(self.frame(), self.names(), *expr, *self.node));
        }
    }
}

impl<'a> NtPrint<'a, ReturnStatement> {
    /// Display a return statement
    fn print_return(&self, out: &mut Vec<Piece>)
        requires
            self.ok(),
            exprs_refs(self.node.exprs@, self.tables()),
        ensures
            visible(final(out)@) == visible(old(out)@) + exprs_text(named(self.frame(), "Return"@), self.names(), self.node.exprs@),
        decreases *self.node, 1nat,
    {
        self.swap(&self.node.exprs).name("Return").print_exprs(out);
    }
}

impl<'a> NtPrint<'a, Statement> {
    /// Display a statement
    #[verifier::rlimit(100)]
    fn print_statement(&self, out: &mut Vec<Piece>)
        requires
            self.ok(),
            statement_refs(*self.node, self.tables()),
        ensures
            visible(final(out)@) == visible(old(out)@) + statement_text(self.frame(), self.names(), *self.node),
        decreases *self.node, 2nat,
    {
        let size = statement_size(self.node);
        match self.node {
            Statement::Empty => self.emit(out, "Empty Statement", None, size),
            Statement::Assign { vars, exps, is_global_init } => {
                self.emit(out, "Assign", None, size);
                self.child(is_global_init).name("Init Globals").print_bool(out);
                self.child(vars).name("Variables").print_vars(out);
                self.last(exps).name("Expressions").print_exprs(out);
            },
            Statement::Call(call) => self.swap(call).print_call(out),
            Statement::Label(label) => self.swap(label).name("Label").print_label(out),
            Statement::Goto(label) => self.swap(label).name("Goto").print_label(out),
            Statement::Block(block) => self.swap(block).print_block(out),
            Statement::While { expr, block } => {
                self.emit(out, "While", None, size);
                self.child(expr).name("Condition").print_expression(out);
                self.last(block).print_block(out);
            },
            Statement::Repeat { block, expr, block_end } => {
                self.emit(out, "Repeat", None, size);
                self.child(block).print_block(out);
                if block_end.len() == 0 {
                    self.last(expr).name("Condition").print_expression(out);
                } else {
                    self.child(expr).name("Condition").print_expression(out);
                    self.last(block_end).name("Closed Variables").print_statements(out);
                }
            },
            Statement::If { .. } => self.print_if(out, size),
            Statement::For { name, initial, limit, step, block } => {
                self.emit(out, "For", None, size);
                self.child(name).name("Name").print_variable(out);
                self.child(initial).name("Initial").print_expression(out);
                self.child(limit).name("Limit").print_expression(out);
                if let Some(step) = step {
                    self.child(step).name("Step").print_expression(out);
                }
                self.last(block).print_block(out);
            },
            Statement::ForEach { names, exprs, block } => {
                self.emit(out, "For Each", None, size);
                self.child(names).name("Names").print_variables(out);
                self.child(exprs).name("Values").print_exprs(out);
                self.last(block).print_block(out);
            },
            Statement::Function { name, body } => {
                self.emit(out, "Function", None, size);
                self.child(name).name("Name").print_function_name(out);
                self.last(body).print_function(out);
            },
            Statement::ScopeStart(id) => self.swap(id).name("Scope Start").print_variable(out),
            Statement::ScopeEnd(id) => self.swap(id).name("Scope End").print_variable(out),
        }
        proof {
            assert(visible(out@) =~= visible(old(out)@) + statement_text(self.frame(), self.names(), *self.node));
        }
    }

    /// Display an if statement
    #[verifier::spinoff_prover]
    #[verifier::rlimit(40)]
    fn print_if(&self, out: &mut Vec<Piece>, size: usize)
        requires
            self.ok(),
            statement_refs(*self.node, self.tables()),
            self.node is If,
        ensures
            visible(final(out)@) == visible(old(out)@) + statement_text(self.frame(), self.names(), *self.node),
        decreases *self.node, 1nat,
    {
        let (expr, block, elseif, else_block) = match self.node {
            Statement::If { expr, block, elseif, else_block } => (expr, block, elseif, else_block),
            _ => {
                assert(false);
                return;
            },
        };
        let ghost old_node = self.node;
        let count: usize = if else_block.is_some() {
            elseif.len().saturating_add(2)
        } else {
            elseif.len().saturating_add(1)
        };
        self.emit(out, "If", Some(count), size);
        let branch = self.nth(block, count == 1);
        proof {
            assert(decreases_to!(*self.node => *expr));
            assert(decreases_to!(*self.node => *block));
        }
        branch.print_branch(out, self.node, expr);
        let ghost first = out@;
        let mut i: usize = 0;
        proof {
            assert(elseif@.skip(0) =~= elseif@);
        }
        while i < elseif.len()
            invariant
                self.ok(),
                self.node == old_node,
                *old_node matches Statement::If { elseif: e, .. } && e == *elseif,
                i <= elseif@.len(),
                branches_refs(elseif@.skip(i as int), self.tables()),
                visible(out@) + branches_items(self.frame(), self.names(), elseif@, count, i as int)
                    == visible(first) + branches_items(self.frame(), self.names(), elseif@, count, 0),
            decreases elseif@.len() - i,
        {
            proof {
                assert(elseif@.skip(i as int)[0] == elseif@[i as int]);
                assert(elseif@.skip(i as int).drop_first() =~= elseif@.skip(i + 1));
            }
            let ghost before = out@;
            let branch = self.nth(&elseif[i].1, count >= 2 && i == count - 2);
            proof {
                assert(decreases_to!(*self.node => *elseif));
                assert(decreases_to!(*elseif => elseif@));
                assert(decreases_to!(elseif@ => elseif@[i as int]));
                assert(decreases_to!(elseif@[i as int] => elseif@[i as int].0));
                assert(decreases_to!(elseif@[i as int] => elseif@[i as int].1));
                assert(decreases_to!(*self.node => elseif@[i as int].0));
                assert(decreases_to!(*self.node => elseif@[i as int].1));
            }
            branch.print_branch(out, self.node, &elseif[i].0);
            proof {
                let t = visible(out@);
                assert(t + branches_items(self.frame(), self.names(), elseif@, count, i + 1)
                    =~= visible(before) + branches_items(
                    self.frame(),
                    self.names(),
                    elseif@,
                    count,
                    i as int,
                ));
            }
            i = i + 1;
        }
        proof {
            assert(visible(out@) =~= visible(first) + branches_items(
                self.frame(),
                self.names(),
                elseif@,
                count,
                0,
            ));
        }
        if let Some(else_block) = else_block {
            self.last(else_block).name("Else").print_block(out);
        }
        proof {
            assert(visible(out@) =~= visible(old(out)@) + statement_text(self.frame(), self.names(), *self.node));
        }
    }
}

impl<'a> NtPrint<'a, FunctionName> {
    /// Display the name of a function statement
    fn print_function_name(&self, out: &mut Vec<Piece>)
        requires
            self.ok(),
            function_name_refs(*self.node, self.tables()),
        ensures
            visible(final(out)@) == visible(old(out)@) + function_name_text(self.frame(), self.names(), *self.node),
    {
        match self.node {
            FunctionName::DefineLocal { var } => self.swap(var).name("Define Local").print_variable(
                out,
            ),
            FunctionName::DefineGlobal { env, names } => {
                self.emit(out, "Define Global", None, function_name_size(self.node));
                self.child(env).name("Environment").print_variable(out);
                self.last(names).name("Path").print_strings(out);
            },
            FunctionName::Path { start, names, method } => {
                self.emit(out, "Assignment", None, function_name_size(self.node));
                self.child(start).name("Root").print_variable(out);
                if let Some(meth) = method {
                    self.child(names).name("Path").print_strings(out);
                    self.last(meth).name("Method").print_string(out);
                } else {
                    self.last(names).name("Path").print_strings(out);
                }
            },
        }
        proof {
            assert(visible(out@) =~= visible(old(out)@) + function_name_text(self.frame(), self.names(), *self.node));
        }
    }
}

impl<'a> NtPrint<'a, Var> {
    /// Display a variable
    fn print_var(&self, out: &mut Vec<Piece>)
        requires
            self.ok(),
            var_refs(*self.node, self.tables()),
        ensures
            visible(final(out)@) == visible(old(out)@) + var_text(self.frame(), self.names(), *self.node),
        decreases *self.node, 1nat,
    {
        let size = var_size(self.node);
        match self.node {
            Var::LocalName(id) => self.swap(id).name("Local").print_variable(out),
            Var::GlobalNames { env, names } => {
                self.emit(out, "Global", None, size);
                self.child(env).name("Environment").print_variable(out);
                self.last(names).print_strings(out);
            },
            Var::Index { first, index } => {
                self.emit(out, "Index", None, size);
                self.child(first).name("Base").print_prefix(out);
                self.last(index).name("Index").print_expression(out);
            },
            Var::Dot { first, name } => {
                self.emit(out, "Dot Access", None, size);
                self.child(first).name("Base").print_prefix(out);
                self.last(name).name("Value").print_string(out);
            },
        }
        proof {
            assert(visible(out@) =~= visible(old(out)@) + var_text(self.frame(), self.names(), *self.node));
        }
    }
}

impl<'a> NtPrint<'a, Expression> {
    /// Display an expression
    fn print_expression(&self, out: &mut Vec<Piece>)
        requires
            self.ok(),
            expression_refs(*self.node, self.tables()),
        ensures
            visible(final(out)@) == visible(old(out)@) + expression_text(self.frame(), self.names(), *self.node),
        decreases *self.node, 1nat,
    {
        let size = expression_size(self.node);
        match self.node {
            Expression::Nil => self.emit(out, "Nil", None, 0),
            Expression::Bool(b) => {
                if *b {
                    self.emit(out, "True", None, 0);
                } else {
                    self.emit(out, "False", None, 0);
                }
            },
            Expression::Number(number) => self.swap(number).print_number(out),
            Expression::String(id) => self.swap(id).name("String").print_string(out),
            Expression::Function(function) => self.swap(function).print_function(out),
            Expression::Prefix(pre) => self.swap(pre).print_prefix(out),
            Expression::Table(fields) => self.swap(fields).name("Table").print_field_list(out),
            Expression::Binary { left, op, right } => {
                self.emit(out, "Binary", None, size);
                self.child(&**left).name("Left").print_expression(out);
                self.child(op).name("Op").print_binary_operator(out);
                self.last(&**right).name("Right").print_expression(out);
            },
            Expression::Unary { expr, op } => {
                self.emit(out, "Unary", None, size);
                self.child(op).name("Op").print_unary_operator(out);
                self.last(&**expr).print_expression(out);
            },
        }
        proof {
            assert(visible(out@) =~= visible(old(out)@) + expression_text(self.frame(), self.names(), *self.node));
        }
    }
}

impl<'a> NtPrint<'a, PrefixExpression> {
    /// Display a prefix expression
    fn print_prefix(&self, out: &mut Vec<Piece>)
        requires
            self.ok(),
            prefix_refs(*self.node, self.tables()),
        ensures
            visible(final(out)@) == visible(old(out)@) + prefix_text(self.frame(), self.names(), *self.node),
        decreases *self.node, 1nat,
    {
        match self.node {
            PrefixExpression::Var(var) => self.swap(&**var).print_var(out),
            PrefixExpression::Call(call) => self.swap(call).print_call(out),
            PrefixExpression::Expr(expr) => {
                self.emit(out, "Parenthesised", None, prefix_size(self.node));
                self.last(&**expr).print_expression(out);
            },
        }
        proof {
            assert(visible(out@) =~= visible(old(out)@) + prefix_text(self.frame(), self.names(), *self.node));
        }
    }
}

impl<'a> NtPrint<'a, FunctionCall> {
    /// Display a function call
    fn print_call(&self, out: &mut Vec<Piece>)
        requires
            self.ok(),
            call_refs(*self.node, self.tables()),
        ensures
            visible(final(out)@) == visible(old(out)@) + call_text(self.frame(), self.names(), *self.node),
        decreases *self.node, 1nat,
    {
        let c = self.node;
        self.emit(out, "Call", None, call_size(c));
        self.child(&*c.receiver).name("Receiver").print_prefix(out);
        if let Some(method) = &c.method_name {
            self.child(method).name("Method").print_string(out);
        }
        self.last(&c.args).print_args(out);
        proof {
            assert(visible(out@) =~= visible(old(out)@) + call_text(self.frame(), self.names(), *self.node));
        }
    }
}

impl<'a> NtPrint<'a, FunctionArgs> {
    /// Display the arguments of a call
    fn print_args(&self, out: &mut Vec<Piece>)
        requires
            self.ok(),
            args_refs(*self.node, self.tables()),
        ensures
            visible(final(out)@) == visible(old(out)@) + args_text(self.frame(), self.names(), *self.node),
        decreases *self.node, 1nat,
    {
        match self.node {
            FunctionArgs::Call { exprs } => self.swap(exprs).name("Arguments").print_exprs(out),
            FunctionArgs::Table { table } => self.swap(table).name("Table Arg").print_field_list(
                out,
            ),
            FunctionArgs::String { value } => self.swap(value).name("String Arg").print_string(out),
        }
    }
}

impl<'a> NtPrint<'a, Function> {
    /// Display a function
    fn print_function(&self, out: &mut Vec<Piece>)
        requires
            self.ok(),
            function_refs(*self.node, self.tables()),
        ensures
            visible(final(out)@) == visible(old(out)@) + function_text(self.frame(), self.names(), *self.node),
        decreases *self.node, 1nat,
    {
        self.emit(out, "Function", None, function_size(self.node));
        self.child(&self.node.parameters).print_parameters(out);
        self.last(&self.node.body).print_block(out);
        proof {
            assert(visible(out@) =~= visible(old(out)@) + function_text(self.frame(), self.names(), *self.node));
        }
    }
}

impl<'a> NtPrint<'a, ParameterList> {
    /// Display a parameter list
    fn print_parameters(&self, out: &mut Vec<Piece>)
        requires
            self.ok(),
            self.node.self_var matches Some(v) ==> v.0 < self.tables().variables,
            ids_below(self.node.names@, self.tables().variables),
            self.node.var_name matches Some(v) ==> v.0 < self.tables().variables,
        ensures
            visible(final(out)@) == visible(old(out)@) + parameters_text(self.frame(), self.names(), *self.node),
    {
        let p = self.node;
        let mut count: usize = p.names.len();
        if p.self_var.is_some() {
            count = count.saturating_add(1);
        }
        if p.var_name.is_some() {
            count = count.saturating_add(1);
        }
        assert(count == parameters_count(*p));
        self.emit(out, "Parameters", Some(count), buffer_size(&p.names));
        if let Some(name) = &p.self_var {
            self.last(name).name("Self var").print_variable(out);
        }
        self.swap(&p.names).print_variable_items(out, count);
        if let Some(name) = &p.var_name {
            self.last(name).name("Var args").print_variable(out);
        }
        proof {
            assert(visible(out@) =~= visible(old(out)@) + parameters_text(self.frame(), self.names(), *self.node));
        }
    }
}

impl<'a> NtPrint<'a, FieldList> {
    /// Display a table constructor
    fn print_field_list(&self, out: &mut Vec<Piece>)
        requires
            self.ok(),
            field_list_refs(*self.node, self.tables()),
        ensures
            visible(final(out)@) == visible(old(out)@) + fields_text(named(self.frame(), "Fields"@), self.names(), self.node.fields@),
        decreases *self.node, 1nat,
    {
        self.swap(&self.node.fields).name("Fields").print_fields(out);
    }
}

impl<'a> NtPrint<'a, Field> {
    /// Display a table field
    fn print_field(&self, out: &mut Vec<Piece>)
        requires
            self.ok(),
            field_refs(*self.node, self.tables()),
        ensures
            visible(final(out)@) == visible(old(out)@) + field_text(self.frame(), self.names(), *self.node),
        decreases *self.node, 1nat,
    {
        let size = field_size(self.node);
        match self.node {
            Field::Index { index, expr } => {
                self.emit(out, "Index Field", None, size);
                self.child(index).name("Index").print_expression(out);
                self.last(expr).name("Value").print_expression(out);
            },
            Field::Assign { name, expr } => {
                self.emit(out, "Assign Field", None, size);
                self.child(name).name("Name").print_string(out);
                self.last(expr).name("Value").print_expression(out);
            },
            Field::Exp { expr } => self.swap(expr).name("Expr Field").print_expression(out),
        }
        proof {
            assert(visible(out@) =~= visible(old(out)@) + field_text(self.frame(), self.names(), *self.node));
        }
    }
}

impl<'a> NtPrint<'a, ast::BinaryOperator> {
    /// Display a binary operator
    fn print_binary_operator(&self, out: &mut Vec<Piece>)
        ensures
            visible(final(out)@) == visible(old(out)@) + line_of(self.frame(), binary_name(*self.node), None),
    {
        self.emit(out, self.node.name(), None, 0);
    }
}

impl<'a> NtPrint<'a, ast::UnaryOperator> {
    /// Display a unary operator
    fn print_unary_operator(&self, out: &mut Vec<Piece>)
        ensures
            visible(final(out)@) == visible(old(out)@) + line_of(self.frame(), unary_name(*self.node), None),
    {
        self.emit(out, self.node.name(), None, 0);
    }
}

} // verus!
