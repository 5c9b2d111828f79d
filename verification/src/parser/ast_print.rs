//! Pretty printer for syntax trees

use vstd::prelude::*;

use crate::parser::ast::{
    binary_name, unary_name, Attribute, AttributeNameList, BinaryOperator, Block, Expression,
    Field, FieldList, Function, FunctionArgs, FunctionCall, FunctionName, ParameterList,
    PrefixExpression, ReturnStatement, Statement, UnaryOperator, Var, Visibility,
};
use crate::parser::ast_size::{
    attribute_names_size, block_size, call_size, expression_size, exprs_size, field_list_size,
    field_size, function_name_size, function_size, parameters_size, prefix_size, statement_size,
    var_size, vars_size,
};
use crate::parser::lexer::Token;
use crate::utils::size_of::{add_size, buffer_size, SizeOf};
use crate::utils::tree_print::{
    child_frame, count_with, last_frame, line_of, named, nth_frame, Frame, TreeCtx,
};
use crate::utils::{debug_chars, debug_text, push_chars, push_str, visible, Piece};

verus! {

/// The count of a list and `extra` more elements, saturating
pub open spec fn sat(n: nat) -> usize {
    if n > usize::MAX {
        usize::MAX
    } else {
        n as usize
    }
}

/// The printed line of a token
pub open spec fn token_text(f: Frame, t: Token) -> Seq<Piece> {
    line_of(f, "Token "@ + debug_text(t.value@), None)
}

/// The printed tokens from the `i`th on, as children of a node of `count`
/// children
pub open spec fn tokens_items(f: Frame, v: Seq<Token>, count: usize, i: int) -> Seq<Piece>
    decreases v.len() - i,
{
    if i < 0 || i >= v.len() {
        Seq::empty()
    } else {
        token_text(nth_frame(f, i + 1 == count), v[i]) + tokens_items(f, v, count, i + 1)
    }
}

/// The printed list of tokens
pub open spec fn tokens_text(f: Frame, v: Seq<Token>) -> Seq<Piece> {
    line_of(f, "List"@, Some(v.len() as usize)) + tokens_items(f, v, v.len() as usize, 0)
}

/// The printed visibility
pub open spec fn visibility_text(f: Frame, v: Visibility) -> Seq<Piece> {
    line_of(
        f,
        match v {
            Visibility::Local => "Local"@,
            Visibility::Global => "Global"@,
        },
        None,
    )
}

/// The printed attribute
pub open spec fn attribute_text(f: Frame, a: Attribute) -> Seq<Piece> {
    token_text(named(f, "Attribute"@), a.name)
}

/// The printed declared name with its attribute
pub open spec fn attribute_name_text(f: Frame, n: (Token, Option<Attribute>)) -> Seq<Piece> {
    match n.1 {
        Some(a) => line_of(f, "Name/Attr"@, None) + token_text(named(child_frame(f), "Name"@), n.0)
            + attribute_text(last_frame(f), a),
        None => token_text(named(f, "Name"@), n.0),
    }
}

/// The printed declared names from the `i`th on
pub open spec fn attribute_name_items(
    f: Frame,
    v: Seq<(Token, Option<Attribute>)>,
    count: usize,
    i: int,
) -> Seq<Piece>
    decreases v.len() - i,
{
    if i < 0 || i >= v.len() {
        Seq::empty()
    } else {
        attribute_name_text(nth_frame(f, i + 1 == count), v[i]) + attribute_name_items(
            f,
            v,
            count,
            i + 1,
        )
    }
}

/// The printed names of a declaration
pub open spec fn attribute_names_text(f: Frame, n: AttributeNameList) -> Seq<Piece> {
    let count = n.names@.len() as usize;
    line_of(f, "Attribute Names"@, Some(count)) + (match n.attrib {
        Some(a) => attribute_text(named(nth_frame(f, count == 0), "Attribute"@), a),
        None => Seq::empty(),
    }) + attribute_name_items(f, n.names@, count, 0)
}

/// The printed name of a function statement
pub open spec fn function_name_text(f: Frame, n: FunctionName) -> Seq<Piece> {
    let count = count_with(n.names@.len(), n.method is Some);
    line_of(f, "Function Name"@, Some(count)) + tokens_items(f, n.names@, count, 0) + (
    match n.method {
        Some(m) => token_text(named(last_frame(f), "Method"@), m),
        None => Seq::empty(),
    })
}

/// The printed parameter list
pub open spec fn parameters_text(f: Frame, p: ParameterList) -> Seq<Piece> {
    let count = count_with(p.names@.len(), p.var_name is Some);
    line_of(f, "Parameters"@, Some(count)) + tokens_items(f, p.names@, count, 0) + (
    match p.var_name {
        Some(Some(n)) => token_text(named(last_frame(f), "Var args"@), n),
        Some(None) => line_of(named(last_frame(f), "Var args"@), "<un-named>"@, None),
        None => Seq::empty(),
    })
}

/// The printed block
pub open spec fn block_text(f: Frame, b: Block) -> Seq<Piece>
    decreases b, 0nat,
{
    let count = count_with(b.statements@.len(), b.ret_stat is Some);
    line_of(f, "Block"@, Some(count)) + statements_items(f, b.statements@, count, 0) + (
    match b.ret_stat {
        Some(r) => exprs_text(named(last_frame(f), "Return"@), r.exprs@),
        None => Seq::empty(),
    })
}

/// The printed statements from the `i`th on
pub open spec fn statements_items(f: Frame, v: Seq<Statement>, count: usize, i: int) -> Seq<
    Piece,
>
    decreases v, v.len() - i,
{
    if i < 0 || i >= v.len() {
        Seq::empty()
    } else {
        statement_text(nth_frame(f, i + 1 == count), v[i]) + statements_items(f, v, count, i + 1)
    }
}

/// The printed list of expressions
pub open spec fn exprs_text(f: Frame, v: Seq<Expression>) -> Seq<Piece>
    decreases v, v.len() + 1,
{
    line_of(f, "List"@, Some(v.len() as usize)) + exprs_items(f, v, v.len() as usize, 0)
}

/// The printed expressions from the `i`th on
pub open spec fn exprs_items(f: Frame, v: Seq<Expression>, count: usize, i: int) -> Seq<Piece>
    decreases v, v.len() - i,
{
    if i < 0 || i >= v.len() {
        Seq::empty()
    } else {
        expression_text(nth_frame(f, i + 1 == count), v[i]) + exprs_items(f, v, count, i + 1)
    }
}

/// The printed list of variables
pub open spec fn vars_text(f: Frame, v: Seq<Var>) -> Seq<Piece>
    decreases v, v.len() + 1,
{
    line_of(f, "List"@, Some(v.len() as usize)) + vars_items(f, v, v.len() as usize, 0)
}

/// The printed variables from the `i`th on
pub open spec fn vars_items(f: Frame, v: Seq<Var>, count: usize, i: int) -> Seq<Piece>
    decreases v, v.len() - i,
{
    if i < 0 || i >= v.len() {
        Seq::empty()
    } else {
        var_text(nth_frame(f, i + 1 == count), v[i]) + vars_items(f, v, count, i + 1)
    }
}

/// The printed `elseif` branches from the `i`th on, in an if statement of
/// `count` children
pub open spec fn branches_items(f: Frame, v: Seq<(Expression, Block)>, count: usize, i: int) -> Seq<
    Piece,
>
    decreases v, v.len() - i,
{
    if i < 0 || i >= v.len() {
        Seq::empty()
    } else {
        let bf = nth_frame(f, count >= 2 && i == count - 2);
        line_of(bf, "Branch"@, None) + expression_text(named(child_frame(bf), "Condition"@), v[i].0)
            + block_text(last_frame(bf), v[i].1) + branches_items(f, v, count, i + 1)
    }
}

/// The printed branch of an if statement
pub open spec fn branch_text(f: Frame, e: Expression, b: Block) -> Seq<Piece> {
    line_of(f, "Branch"@, None) + expression_text(named(child_frame(f), "Condition"@), e)
        + block_text(last_frame(f), b)
}

/// The printed statement
pub open spec fn statement_text(f: Frame, s: Statement) -> Seq<Piece>
    decreases s, 0nat,
{
    match s {
        Statement::Empty => line_of(f, "Empty Statement"@, None),
        Statement::Assign { vars, exps } => line_of(f, "Assignment"@, None) + vars_text(
            named(child_frame(f), "Variables"@),
            vars@,
        ) + exprs_text(named(last_frame(f), "Expressions"@), exps@),
        Statement::Call(call) => call_text(f, call),
        Statement::Label(label) => token_text(named(f, "Label"@), label.name),
        Statement::Break => line_of(f, "Break"@, None),
        Statement::Goto(t) => token_text(named(f, "Goto"@), t),
        Statement::Block(b) => block_text(f, b),
        Statement::While { expr, block } => line_of(f, "While"@, None) + expression_text(
            named(child_frame(f), "Condition"@),
            expr,
        ) + block_text(last_frame(f), block),
        Statement::Repeat { block, expr } => line_of(f, "Repeat"@, None) + block_text(
            child_frame(f),
            block,
        ) + expression_text(named(last_frame(f), "Condition"@), expr),
        Statement::If { expr, block, elseif, else_block } => {
            let count = sat(elseif@.len() + if else_block is Some {
                2nat
            } else {
                1nat
            });
            let bf = nth_frame(f, count == 1);
            line_of(f, "If"@, Some(count)) + (line_of(bf, "Branch"@, None) + expression_text(
                named(child_frame(bf), "Condition"@),
                expr,
            ) + block_text(last_frame(bf), block)) + branches_items(f, elseif@, count, 0) + (
            match else_block {
                Some(e) => block_text(named(last_frame(f), "Else"@), e),
                None => Seq::empty(),
            })
        },
        Statement::For { name, initial, limit, step, block } => line_of(f, "For"@, None)
            + token_text(named(child_frame(f), "Name"@), name) + expression_text(
            named(child_frame(f), "Initial"@),
            initial,
        ) + expression_text(named(child_frame(f), "Limit"@), limit) + (match step {
            Some(e) => expression_text(named(child_frame(f), "Step"@), e),
            None => Seq::empty(),
        }) + block_text(last_frame(f), block),
        Statement::ForEach { names, exprs, block } => line_of(f, "For Each"@, None) + tokens_text(
            named(child_frame(f), "Names"@),
            names@,
        ) + exprs_text(named(child_frame(f), "Values"@), exprs@) + block_text(last_frame(f), block),
        Statement::Function { name, body, vis } => line_of(f, "Function"@, None) + (match vis {
            Some(v) => visibility_text(child_frame(f), v),
            None => Seq::empty(),
        }) + function_name_text(child_frame(f), name) + function_text(last_frame(f), body),
        Statement::Declare { vis, names, exprs } => line_of(f, "Declare"@, None) + visibility_text(
            child_frame(f),
            vis,
        ) + attribute_names_text(named(child_frame(f), "Names"@), names) + exprs_text(
            named(last_frame(f), "Values"@),
            exprs@,
        ),
        Statement::GlobalCollective { attrib } => line_of(f, "Global *"@, None) + (match attrib {
            Some(a) => attribute_text(last_frame(f), a),
            None => Seq::empty(),
        }),
    }
}

/// The printed variable
pub open spec fn var_text(f: Frame, v: Var) -> Seq<Piece>
    decreases v, 0nat,
{
    match v {
        Var::Name(t) => token_text(named(f, "Name"@), t),
        Var::Index { first, index } => line_of(f, "Var Index"@, None) + prefix_text(
            child_frame(f),
            first,
        ) + expression_text(named(last_frame(f), "Index"@), index),
        Var::Dot { first, name } => line_of(f, "Var Dot"@, None) + prefix_text(child_frame(f), first)
            + token_text(named(last_frame(f), "Name"@), name),
    }
}

/// The printed expression
pub open spec fn expression_text(f: Frame, e: Expression) -> Seq<Piece>
    decreases e, 0nat,
{
    match e {
        Expression::Nil => line_of(f, "Nil"@, None),
        Expression::False => line_of(f, "False"@, None),
        Expression::True => line_of(f, "True"@, None),
        Expression::Number(t) => token_text(named(f, "Number"@), t),
        Expression::String(t) => token_text(named(f, "String"@), t),
        Expression::DotDotDot => line_of(f, "\"...\""@, None),
        Expression::Function(func) => function_text(f, func),
        Expression::Prefix(p) => prefix_text(f, p),
        Expression::Table(fields) => field_list_text(named(f, "Table"@), fields),
        Expression::Binary { left, op, right } => line_of(f, "Binary"@, None) + expression_text(
            named(child_frame(f), "Left"@),
            *left,
        ) + line_of(named(child_frame(f), "Op"@), binary_name(op), None) + expression_text(
            named(last_frame(f), "Right"@),
            *right,
        ),
        Expression::Unary { expr, op } => line_of(f, "Unary"@, None) + line_of(
            named(child_frame(f), "Op"@),
            unary_name(op),
            None,
        ) + expression_text(last_frame(f), *expr),
    }
}

/// The printed prefix expression
pub open spec fn prefix_text(f: Frame, p: PrefixExpression) -> Seq<Piece>
    decreases p, 0nat,
{
    match p {
        PrefixExpression::Var(v) => var_text(f, *v),
        PrefixExpression::Call(c) => call_text(f, c),
        PrefixExpression::Expr(e) => line_of(f, "Parenthesised"@, None) + expression_text(
            last_frame(f),
            *e,
        ),
    }
}

/// The printed function call
pub open spec fn call_text(f: Frame, c: FunctionCall) -> Seq<Piece>
    decreases c, 0nat,
{
    line_of(f, "Call"@, None) + prefix_text(named(child_frame(f), "Receiver"@), *c.receiver) + (
    match c.method_name {
        Some(m) => token_text(named(child_frame(f), "Method"@), m),
        None => Seq::empty(),
    }) + args_text(last_frame(f), c.args)
}

/// The printed arguments of a call
pub open spec fn args_text(f: Frame, a: FunctionArgs) -> Seq<Piece>
    decreases a, 0nat,
{
    match a {
        FunctionArgs::Call { exprs } => exprs_text(named(f, "Arguments"@), exprs@),
        FunctionArgs::Table { table } => field_list_text(named(f, "Table Arg"@), table),
        FunctionArgs::String { value } => token_text(named(f, "String Arg"@), value),
    }
}

/// The printed function
pub open spec fn function_text(f: Frame, func: Function) -> Seq<Piece>
    decreases func, 0nat,
{
    line_of(f, "Function"@, None) + parameters_text(child_frame(f), func.parameters) + block_text(
        last_frame(f),
        func.body,
    )
}

/// The printed table constructor
pub open spec fn field_list_text(f: Frame, fl: FieldList) -> Seq<Piece>
    decreases fl, 0nat,
{
    line_of(f, "Field List"@, Some(fl.fields@.len() as usize)) + fields_items(
        f,
        fl.fields@,
        fl.fields@.len() as usize,
        0,
    )
}

/// The printed table fields from the `i`th on
pub open spec fn fields_items(f: Frame, v: Seq<Field>, count: usize, i: int) -> Seq<Piece>
    decreases v, v.len() - i,
{
    if i < 0 || i >= v.len() {
        Seq::empty()
    } else {
        field_text(nth_frame(f, i + 1 == count), v[i]) + fields_items(f, v, count, i + 1)
    }
}

/// The printed table field
pub open spec fn field_text(f: Frame, fd: Field) -> Seq<Piece>
    decreases fd, 0nat,
{
    match fd {
        Field::Index { index, expr } => line_of(f, "Index Field"@, None) + expression_text(
            named(child_frame(f), "Index"@),
            index,
        ) + expression_text(named(last_frame(f), "Value"@), expr),
        Field::Assign { name, expr } => line_of(f, "Assign Field"@, None) + token_text(
            named(child_frame(f), "Name"@),
            name,
        ) + expression_text(named(last_frame(f), "Value"@), expr),
        Field::Exp { expr } => expression_text(named(f, "Expr Field"@), expr),
    }
}

/// Pretty printer for all AST nodes
pub struct AstPrint<'a, T> {
    node: &'a T,
    tree: TreeCtx,
}

/// In the printing of a numeric `for`, each labelled child line prints the
/// field of that name: the `Name` line the loop variable, the `Initial` line
/// the initial value and, right after it, the `Limit` line the limit, then
/// the `Step` line the step where there is one; the body comes last.
pub proof fn law_for_labels<'a>(
    f: Frame,
    name: Token<'a>,
    initial: Expression<'a>,
    limit: Expression<'a>,
    step: Option<Expression<'a>>,
    block: Block<'a>,
)
    ensures
        ({
            let t = statement_text(f, Statement::For { name, initial, limit, step, block });
            let c = child_frame(f);
            &&& exists|p: Seq<Piece>, q: Seq<Piece>|
                t == p + token_text(named(c, "Name"@), name) + q
            &&& exists|p: Seq<Piece>, q: Seq<Piece>|
                t == p + expression_text(named(c, "Initial"@), initial) + expression_text(
                    named(c, "Limit"@),
                    limit,
                ) + q
            &&& step matches Some(e) ==> exists|p: Seq<Piece>, q: Seq<Piece>|
                t == p + expression_text(named(c, "Step"@), e) + q
            &&& exists|p: Seq<Piece>| t == p + block_text(last_frame(f), block)
        }),
{
    let t = statement_text(f, Statement::For { name, initial, limit, step, block });
    let c = child_frame(f);
    let h = line_of(f, "For"@, None);
    let n = token_text(named(c, "Name"@), name);
    let i = expression_text(named(c, "Initial"@), initial);
    let l = expression_text(named(c, "Limit"@), limit);
    let st = match step {
        Some(e) => expression_text(named(c, "Step"@), e),
        None => Seq::empty(),
    };
    let b = block_text(last_frame(f), block);
    assert(t == h + n + i + l + st + b);
    assert(t =~= h + n + (i + l + st + b));
    assert(t =~= (h + n) + i + l + (st + b));
    if let Some(e) = step {
        assert(t =~= (h + n + i + l) + st + b);
    }
    assert(t =~= (h + n + i + l + st) + b);
}

/// In the printing of a binary expression, the `Left` line prints the left
/// operand, then comes the `Op` line with the operator, then the `Right`
/// line with the right operand, last.
pub proof fn law_binary_labels<'a>(
    f: Frame,
    left: Expression<'a>,
    op: BinaryOperator,
    right: Expression<'a>,
)
    ensures
        ({
            let t = expression_text(
                f,
                Expression::Binary { left: Box::new(left), op, right: Box::new(right) },
            );
            exists|p: Seq<Piece>|
                t == p + expression_text(named(child_frame(f), "Left"@), left) + line_of(
                    named(child_frame(f), "Op"@),
                    binary_name(op),
                    None,
                ) + expression_text(named(last_frame(f), "Right"@), right)
        }),
{
    let p = line_of(f, "Binary"@, None);
    assert(expression_text(
        f,
        Expression::Binary { left: Box::new(left), op, right: Box::new(right) },
    ) == p + expression_text(named(child_frame(f), "Left"@), left) + line_of(
        named(child_frame(f), "Op"@),
        binary_name(op),
        None,
    ) + expression_text(named(last_frame(f), "Right"@), right));
}

/// In the printing of a statement, each labelled child prints the field of
/// that name: the `Condition` of a `while` or `repeat` is its condition; the
/// `Variables` of an assignment are its targets and its `Expressions`, last,
/// its values; a `for in` prints its `Names`, then its `Values`, then its
/// body; a declaration prints its `Names` and, last, its `Values`.
pub proof fn law_statement_labels<'a>(f: Frame, s: Statement<'a>)
    ensures
        ({
            let t = statement_text(f, s);
            let c = child_frame(f);
            let z = last_frame(f);
            match s {
                Statement::While { expr, block } => {
                    &&& exists|p: Seq<Piece>, q: Seq<Piece>|
                        t == p + expression_text(named(c, "Condition"@), expr) + q
                    &&& exists|p: Seq<Piece>| t == p + block_text(z, block)
                },
                Statement::Repeat { block, expr } => {
                    &&& exists|p: Seq<Piece>, q: Seq<Piece>| t == p + block_text(c, block) + q
                    &&& exists|p: Seq<Piece>| t == p + expression_text(named(z, "Condition"@), expr)
                },
                Statement::Assign { vars, exps } => {
                    &&& exists|p: Seq<Piece>, q: Seq<Piece>|
                        t == p + vars_text(named(c, "Variables"@), vars@) + q
                    &&& exists|p: Seq<Piece>| t == p + exprs_text(named(z, "Expressions"@), exps@)
                },
                Statement::ForEach { names, exprs, block } => {
                    &&& exists|p: Seq<Piece>, q: Seq<Piece>|
                        t == p + tokens_text(named(c, "Names"@), names@) + exprs_text(
                            named(c, "Values"@),
                            exprs@,
                        ) + q
                    &&& exists|p: Seq<Piece>| t == p + block_text(z, block)
                },
                Statement::Declare { vis, names, exprs } => {
                    &&& exists|p: Seq<Piece>, q: Seq<Piece>|
                        t == p + attribute_names_text(named(c, "Names"@), names) + q
                    &&& exists|p: Seq<Piece>| t == p + exprs_text(named(z, "Values"@), exprs@)
                },
                _ => true,
            }
        }),
{
    let t = statement_text(f, s);
    let c = child_frame(f);
    let z = last_frame(f);
    match s {
        Statement::While { expr, block } => {
            let h = line_of(f, "While"@, None);
            let x = expression_text(named(c, "Condition"@), expr);
            let b = block_text(z, block);
            assert(t =~= h + x + b);
        },
        Statement::Repeat { block, expr } => {
            let h = line_of(f, "Repeat"@, None);
            let b = block_text(c, block);
            let x = expression_text(named(z, "Condition"@), expr);
            assert(t =~= h + b + x);
        },
        Statement::Assign { vars, exps } => {
            let h = line_of(f, "Assignment"@, None);
            let v = vars_text(named(c, "Variables"@), vars@);
            let x = exprs_text(named(z, "Expressions"@), exps@);
            assert(t =~= h + v + x);
        },
        Statement::ForEach { names, exprs, block } => {
            let h = line_of(f, "For Each"@, None);
            let n = tokens_text(named(c, "Names"@), names@);
            let x = exprs_text(named(c, "Values"@), exprs@);
            let b = block_text(z, block);
            assert(t =~= h + n + x + b);
        },
        Statement::Declare { vis, names, exprs } => {
            let h = line_of(f, "Declare"@, None) + visibility_text(c, vis);
            let n = attribute_names_text(named(c, "Names"@), names);
            let x = exprs_text(named(z, "Values"@), exprs@);
            assert(t =~= h + n + x);
        },
        _ => {},
    }
}

impl<'a, T: SizeOf> AstPrint<'a, T> {
    /// Create a new node printer
    pub fn new(node: &'a T) -> (res: Self)
        ensures
            res.node() == node,
            res.frame() == (Seq::<char>::empty(), Seq::<char>::empty(), Seq::<char>::empty()),
    {
        let res = Self { node, tree: TreeCtx::new(node) };
        assert(res.frame() =~= (Seq::<char>::empty(), Seq::<char>::empty(), Seq::<char>::empty()));
        res
    }
}

impl<'a, T> AstPrint<'a, T> {
    /// The node being printed
    pub closed spec fn node(&self) -> &'a T {
        self.node
    }

    /// Where in the tree the node is printed
    pub closed spec fn frame(&self) -> Frame {
        self.tree.frame()
    }

    /// Display a non-last-child element of this node
    fn child<U>(&self, child: &'a U) -> (res: AstPrint<'a, U>)
        ensures
            res.node == child,
            res.frame() == child_frame(self.frame()),
    {
        AstPrint { node: child, tree: self.tree.child() }
    }

    /// Display the last child of this node
    fn last<U>(&self, last: &'a U) -> (res: AstPrint<'a, U>)
        ensures
            res.node == last,
            res.frame() == last_frame(self.frame()),
    {
        AstPrint { node: last, tree: self.tree.last() }
    }

    /// Display a child of this node, the last one or not
    fn nth<U>(&self, child: &'a U, is_last: bool) -> (res: AstPrint<'a, U>)
        ensures
            res.node == child,
            res.frame() == nth_frame(self.frame(), is_last),
    {
        if is_last {
            self.last(child)
        } else {
            self.child(child)
        }
    }

    /// Set the name of this node
    fn name(self, name: &str) -> (res: Self)
        ensures
            res.node == self.node,
            res.frame() == named(self.frame(), name@),
    {
        let mut tree = self.tree;
        tree.name(name);
        Self { node: self.node, tree }
    }

    /// Swap the content without changing levels
    fn swap<U>(&self, swap: &'a U) -> (res: AstPrint<'a, U>)
        ensures
            res.node == swap,
            res.frame() == self.frame(),
    {
        AstPrint { node: swap, tree: self.tree.duplicate() }
    }

    /// Display the line of this node, with a node count
    fn emit(&self, out: &mut Vec<Piece>, value: &str, len: Option<usize>, size: usize)
        ensures
            visible(final(out)@) == visible(old(out)@) + line_of(self.frame(), value@, len),
    {
        let mut v: Vec<char> = Vec::new();
        push_str(&mut v, value);
        self.tree.print_sized(out, v.as_slice(), len, size);
    }

    /// Display the line of this node, described by some characters
    fn emit_chars(&self, out: &mut Vec<Piece>, value: &[char], len: Option<usize>, size: usize)
        ensures
            visible(final(out)@) == visible(old(out)@) + line_of(self.frame(), value@, len),
    {
        self.tree.print_sized(out, value, len, size);
    }
}

impl<'a> AstPrint<'a, Token<'a>> {
    /// Display a token
    fn print_token(&self, out: &mut Vec<Piece>)
        ensures
            visible(final(out)@) == visible(old(out)@) + token_text(self.frame(), *self.node),
    {
        let mut v: Vec<char> = Vec::new();
        push_str(&mut v, "Token ");
        let d = debug_chars(self.node.value);
        push_chars(&mut v, d.as_slice());
        self.emit_chars(out, v.as_slice(), None, 0);
    }
}

impl<'a> AstPrint<'a, Vec<Token<'a>>> {
    /// Display the tokens of a list, as children of a node of `count` children
    fn print_token_items(&self, out: &mut Vec<Piece>, count: usize)
        ensures
            visible(final(out)@) == visible(old(out)@) + tokens_items(self.frame(), self.node@, count, 0),
    {
        let v = self.node;
        let ghost start = out@;
        let mut i: usize = 0;
        while i < v.len()
            invariant
                self.node == v,
                i <= v@.len(),
                visible(out@) + tokens_items(self.frame(), v@, count, i as int) == visible(start)
                    + tokens_items(self.frame(), v@, count, 0),
            decreases v@.len() - i,
        {
            let ghost before = out@;
            if i + 1 == count {
                self.last(&v[i]).print_token(out);
            } else {
                self.child(&v[i]).print_token(out);
            }
            proof {
                let t = visible(out@);
                assert(t + tokens_items(self.frame(), v@, count, i + 1) =~= visible(before) + tokens_items(
                    self.frame(),
                    v@,
                    count,
                    i as int,
                ));
            }
            i = i + 1;
        }
        proof {
            assert(visible(out@) =~= visible(start) + tokens_items(self.frame(), v@, count, 0));
        }
    }

    /// Display a list of tokens
    fn print_tokens(&self, out: &mut Vec<Piece>)
        ensures
            visible(final(out)@) == visible(old(out)@) + tokens_text(self.frame(), self.node@),
    {
        let count = self.node.len();
        self.emit(out, "List", Some(count), buffer_size(self.node));
        self.print_token_items(out, count);
        proof {
            assert(visible(out@) =~= visible(old(out)@) + tokens_text(self.frame(), self.node@));
        }
    }
}

impl<'a> AstPrint<'a, Block<'a>> {
    /// The printed tree of the block
    pub fn pieces(&self) -> (out: Vec<Piece>)
        ensures
            visible(out@) == block_text(self.frame(), *self.node()),
    {
        let mut out: Vec<Piece> = Vec::new();
        proof {
            assert(visible(out@) =~= Seq::<Piece>::empty());
        }
        self.print_block(&mut out);
        proof {
            assert(visible(out@) =~= block_text(self.frame(), *self.node()));
        }
        out
    }

    /// Display a block
    fn print_block(&self, out: &mut Vec<Piece>)
        ensures
            visible(final(out)@) == visible(old(out)@) + block_text(self.frame(), *self.node),
        decreases *self.node, 1nat,
    {
        let b = self.node;
        let count: usize = if b.ret_stat.is_some() {
            b.statements.len().saturating_add(1)
        } else {
            b.statements.len()
        };
        self.emit(out, "Block", Some(count), block_size(b));
        let ghost after_line = out@;
        let ghost first = out@;
        let mut i: usize = 0;
        while i < b.statements.len()
            invariant
                self.node == b,
                i <= b.statements@.len(),
                visible(out@) + statements_items(self.frame(), b.statements@, count, i as int) == visible(first)
                    + statements_items(self.frame(), b.statements@, count, 0),
            decreases b.statements@.len() - i,
        {
            let ghost before = out@;
            if i + 1 == count {
                self.last(&b.statements[i]).print_statement(out);
            } else {
                self.child(&b.statements[i]).print_statement(out);
            }
            proof {
                let t = visible(out@);
                assert(t + statements_items(self.frame(), b.statements@, count, i + 1) =~= visible(before) + statements_items(
                    self.frame(),
                    b.statements@,
                    count,
                    i as int,
                ));
            }
            i = i + 1;
        }
        proof {
            assert(visible(out@) =~= visible(first) + statements_items(self.frame(), b.statements@, count, 0));
        }
        let ghost after_items = out@;
        if let Some(ret) = &b.ret_stat {
            self.last(ret).print_return(out);
        }
        proof {
            assert(visible(out@) =~= visible(old(out)@) + block_text(self.frame(), *self.node));
        }
    }

    /// Display a branch of an if statement: its condition, then this block
    fn print_branch(&self, out: &mut Vec<Piece>, s: &'a Statement<'a>, expr: &'a Expression<'a>)
        requires
            decreases_to!(*s => *expr),
            decreases_to!(*s => *self.node),
        ensures
            visible(final(out)@) == visible(old(out)@) + branch_text(self.frame(), *expr, *self.node),
        decreases *s, 0nat,
    {
        let size = add_size(expression_size(expr), block_size(self.node));
        self.emit(out, "Branch", None, size);
        self.child(expr).name("Condition").print_expression(out);
        self.last(self.node).print_block(out);
        proof {
            assert(visible(out@) =~= visible(old(out)@) + branch_text(self.frame(), *expr, *self.node));
        }
    }
}

impl<'a> AstPrint<'a, ReturnStatement<'a>> {
    /// Display a return statement
    fn print_return(&self, out: &mut Vec<Piece>)
        ensures
            visible(final(out)@) == visible(old(out)@) + exprs_text(named(self.frame(), "Return"@), self.node.exprs@),
        decreases *self.node, 1nat,
    {
        self.swap(&self.node.exprs).name("Return").print_exprs(out);
    }
}

impl<'a> AstPrint<'a, Vec<Expression<'a>>> {
    /// Display a list of expressions
    fn print_exprs(&self, out: &mut Vec<Piece>)
        ensures
            visible(final(out)@) == visible(old(out)@) + exprs_text(self.frame(), self.node@),
        decreases *self.node, 1nat,
    {
        let v = self.node;
        let count = v.len();
        self.emit(out, "List", Some(count), exprs_size(v));
        let ghost first = out@;
        let mut i: usize = 0;
        while i < v.len()
            invariant
                self.node == v, count == v@.len(),
                i <= v@.len(),
                visible(out@) + exprs_items(self.frame(), v@, count, i as int) == visible(first)
                    + exprs_items(self.frame(), v@, count, 0),
            decreases v@.len() - i,
        {
            let ghost before = out@;
            if i + 1 == count {
                self.last(&v[i]).print_expression(out);
            } else {
                self.child(&v[i]).print_expression(out);
            }
            proof {
                let t = visible(out@);
                assert(t + exprs_items(self.frame(), v@, count, i + 1) =~= visible(before) + exprs_items(
                    self.frame(),
                    v@,
                    count,
                    i as int,
                ));
            }
            i = i + 1;
        }
        proof {
            assert(visible(out@) =~= visible(first) + exprs_items(self.frame(), v@, count, 0));
        }
        proof {
            assert(visible(out@) =~= visible(old(out)@) + exprs_text(self.frame(), self.node@));
        }
    }
}

impl<'a> AstPrint<'a, Vec<Var<'a>>> {
    /// Display a list of variables
    fn print_vars(&self, out: &mut Vec<Piece>)
        ensures
            visible(final(out)@) == visible(old(out)@) + vars_text(self.frame(), self.node@),
        decreases *self.node, 1nat,
    {
        let v = self.node;
        let count = v.len();
        self.emit(out, "List", Some(count), vars_size(v));
        let ghost first = out@;
        let mut i: usize = 0;
        while i < v.len()
            invariant
                self.node == v, count == v@.len(),
                i <= v@.len(),
                visible(out@) + vars_items(self.frame(), v@, count, i as int) == visible(first)
                    + vars_items(self.frame(), v@, count, 0),
            decreases v@.len() - i,
        {
            let ghost before = out@;
            if i + 1 == count {
                self.last(&v[i]).print_var(out);
            } else {
                self.child(&v[i]).print_var(out);
            }
            proof {
                let t = visible(out@);
                assert(t + vars_items(self.frame(), v@, count, i + 1) =~= visible(before) + vars_items(
                    self.frame(),
                    v@,
                    count,
                    i as int,
                ));
            }
            i = i + 1;
        }
        proof {
            assert(visible(out@) =~= visible(first) + vars_items(self.frame(), v@, count, 0));
        }
        proof {
            assert(visible(out@) =~= visible(old(out)@) + vars_text(self.frame(), self.node@));
        }
    }
}

impl<'a> AstPrint<'a, Statement<'a>> {
    /// Display a statement
    #[verifier::rlimit(100)]
    fn print_statement(&self, out: &mut Vec<Piece>)
        ensures
            visible(final(out)@) == visible(old(out)@) + statement_text(self.frame(), *self.node),
        decreases *self.node, 2nat,
    {
        let size = statement_size(self.node);
        match self.node {
            Statement::Empty => self.emit(out, "Empty Statement", None, size),
            Statement::Assign { vars, exps } => {
                self.emit(out, "Assignment", None, size);
                self.child(vars).name("Variables").print_vars(out);
                self.last(exps).name("Expressions").print_exprs(out);
            },
            Statement::Call(call) => self.swap(call).print_call(out),
            Statement::Label(label) => self.swap(&label.name).name("Label").print_token(out),
            Statement::Break => self.emit(out, "Break", None, size),
            Statement::Goto(token) => self.swap(token).name("Goto").print_token(out),
            Statement::Block(block) => self.swap(block).print_block(out),
            Statement::While { expr, block } => {
                self.emit(out, "While", None, size);
                self.child(expr).name("Condition").print_expression(out);
                self.last(block).print_block(out);
            },
            Statement::Repeat { block, expr } => {
                self.emit(out, "Repeat", None, size);
                self.child(block).print_block(out);
                self.last(expr).name("Condition").print_expression(out);
            },
            Statement::If { .. } => self.print_if(out, size),
            Statement::For { name, initial, limit, step, block } => {
                self.emit(out, "For", None, size);
                self.child(name).name("Name").print_token(out);
                self.child(initial).name("Initial").print_expression(out);
                self.child(limit).name("Limit").print_expression(out);
                if let Some(step) = step {
                    self.child(step).name("Step").print_expression(out);
                }
                self.last(block).print_block(out);
            },
            Statement::ForEach { names, exprs, block } => {
                self.emit(out, "For Each", None, size);
                self.child(names).name("Names").print_tokens(out);
                self.child(exprs).name("Values").print_exprs(out);
                self.last(block).print_block(out);
            },
            Statement::Function { name, body, vis } => {
                self.emit(out, "Function", None, size);
                if let Some(vis) = vis {
                    self.child(vis).print_visibility(out);
                }
                self.child(name).print_function_name(out);
                self.last(body).print_function(out);
            },
            Statement::Declare { vis, names, exprs } => {
                self.emit(out, "Declare", None, size);
                self.child(vis).print_visibility(out);
                self.child(names).name("Names").print_attribute_names(out);
                self.last(exprs).name("Values").print_exprs(out);
            },
            Statement::GlobalCollective { attrib } => {
                self.emit(out, "Global *", None, size);
                if let Some(attr) = attrib {
                    self.last(attr).print_attribute(out);
                }
            },
        }
        proof {
            assert(visible(out@) =~= visible(old(out)@) + statement_text(self.frame(), *self.node));
        }
    }

    /// Display an if statement
    fn print_if(&self, out: &mut Vec<Piece>, size: usize)
        requires
            self.node is If,
        ensures
            visible(final(out)@) == visible(old(out)@) + statement_text(self.frame(), *self.node),
        decreases *self.node, 1nat,
    {
        let (expr, block, elseif, else_block) = match self.node {
            Statement::If { expr, block, elseif, else_block } => (expr, block, elseif, else_block),
            _ => {
                assert(false);
                return;
            },
        };
        let ghost old_node = self.node;
        let count: usize = if else_block.is_some() {
            elseif.len().saturating_add(2)
        } else {
            elseif.len().saturating_add(1)
        };
        self.emit(out, "If", Some(count), size);
        let branch = self.nth(block, count == 1);
        proof {
            assert(decreases_to!(*self.node => *expr));
            assert(decreases_to!(*self.node => *block));
        }
        branch.print_branch(out, self.node, expr);
        let ghost first = out@;
        let mut i: usize = 0;
        while i < elseif.len()
            invariant
                self.node == old_node,
                *old_node matches Statement::If { elseif: e, .. } && e == *elseif,
                i <= elseif@.len(),
                visible(out@) + branches_items(self.frame(), elseif@, count, i as int)
                    == visible(first) + branches_items(self.frame(), elseif@, count, 0),
            decreases elseif@.len() - i,
        {
            let ghost before = out@;
            let branch = self.nth(&elseif[i].1, count >= 2 && i == count - 2);
            proof {
                assert(decreases_to!(*self.node => *elseif));
                assert(decreases_to!(*elseif => elseif@));
                assert(decreases_to!(elseif@ => elseif@[i as int]));
                assert(decreases_to!(elseif@[i as int] => elseif@[i as int].0));
                assert(decreases_to!(elseif@[i as int] => elseif@[i as int].1));
                assert(decreases_to!(*self.node => elseif@[i as int].0));
                assert(decreases_to!(*self.node => elseif@[i as int].1));
            }
            branch.print_branch(out, self.node, &elseif[i].0);
            proof {
                let t = visible(out@);
                assert(t + branches_items(self.frame(), elseif@, count, i + 1) =~= visible(
                    before,
                ) + branches_items(self.frame(), elseif@, count, i as int));
            }
            i = i + 1;
        }
        proof {
            assert(visible(out@) =~= visible(first) + branches_items(
                self.frame(),
                elseif@,
                count,
                0,
            ));
        }
        if let Some(else_block) = else_block {
            self.last(else_block).name("Else").print_block(out);
        }
    
        proof {
            assert(visible(out@) =~= visible(old(out)@) + statement_text(self.frame(), *self.node));
        }
    }
}

impl<'a> AstPrint<'a, Visibility> {
    /// Display a visibility
    fn print_visibility(&self, out: &mut Vec<Piece>)
        ensures
            visible(final(out)@) == visible(old(out)@) + visibility_text(self.frame(), *self.node),
    {
        match self.node {
            Visibility::Local => self.emit(out, "Local", None, 0),
            Visibility::Global => self.emit(out, "Global", None, 0),
        }
    }
}

impl<'a> AstPrint<'a, Attribute<'a>> {
    /// Display an attribute
    fn print_attribute(&self, out: &mut Vec<Piece>)
        ensures
            visible(final(out)@) == visible(old(out)@) + attribute_text(self.frame(), *self.node),
    {
        self.swap(&self.node.name).name("Attribute").print_token(out);
    }
}

impl<'a> AstPrint<'a, (Token<'a>, Option<Attribute<'a>>)> {
    /// Display a declared name with its attribute
    fn print_attribute_name(&self, out: &mut Vec<Piece>)
        ensures
            visible(final(out)@) == visible(old(out)@) + attribute_name_text(self.frame(), *self.node),
    {
        if let Some(attr) = &self.node.1 {
            self.emit(out, "Name/Attr", None, 0);
            self.child(&self.node.0).name("Name").print_token(out);
            self.last(attr).print_attribute(out);
            proof {
                assert(visible(out@) =~= visible(old(out)@) + attribute_name_text(self.frame(), *self.node));
            }
        } else {
            self.swap(&self.node.0).name("Name").print_token(out);
        }
    }
}

impl<'a> AstPrint<'a, AttributeNameList<'a>> {
    /// Display the names of a declaration
    fn print_attribute_names(&self, out: &mut Vec<Piece>)
        ensures
            visible(final(out)@) == visible(old(out)@) + attribute_names_text(self.frame(), *self.node),
    {
        let n = self.node;
        let count = n.names.len();
        self.emit(out, "Attribute Names", Some(count), attribute_names_size(n));
        if let Some(name) = &n.attrib {
            self.nth(name, count == 0).name("Attribute").print_attribute(out);
        }
        let ghost first = out@;
        let mut i: usize = 0;
        while i < n.names.len()
            invariant
                self.node == n,
                i <= n.names@.len(),
                visible(out@) + attribute_name_items(self.frame(), n.names@, count, i as int) == visible(first)
                    + attribute_name_items(self.frame(), n.names@, count, 0),
            decreases n.names@.len() - i,
        {
            let ghost before = out@;
            if i + 1 == count {
                self.last(&n.names[i]).print_attribute_name(out);
            } else {
                self.child(&n.names[i]).print_attribute_name(out);
            }
            proof {
                let t = visible(out@);
                assert(t + attribute_name_items(self.frame(), n.names@, count, i + 1) =~= visible(before) + attribute_name_items(
                    self.frame(),
                    n.names@,
                    count,
                    i as int,
                ));
            }
            i = i + 1;
        }
        proof {
            assert(visible(out@) =~= visible(first) + attribute_name_items(self.frame(), n.names@, count, 0));
        }
        proof {
            assert(visible(out@) =~= visible(old(out)@) + attribute_names_text(self.frame(), *self.node));
        }
    }
}

impl<'a> AstPrint<'a, FunctionName<'a>> {
    /// Display the name of a function statement
    fn print_function_name(&self, out: &mut Vec<Piece>)
        ensures
            visible(final(out)@) == visible(old(out)@) + function_name_text(self.frame(), *self.node),
    {
        let n = self.node;
        let count: usize = if n.method.is_some() {
            n.names.len().saturating_add(1)
        } else {
            n.names.len()
        };
        self.emit(out, "Function Name", Some(count), function_name_size(n));
        self.swap(&n.names).print_token_items(out, count);
        if let Some(method) = &n.method {
            self.last(method).name("Method").print_token(out);
        }
        proof {
            assert(visible(out@) =~= visible(old(out)@) + function_name_text(self.frame(), *self.node));
        }
    }
}

impl<'a> AstPrint<'a, Var<'a>> {
    /// Display a variable
    fn print_var(&self, out: &mut Vec<Piece>)
        ensures
            visible(final(out)@) == visible(old(out)@) + var_text(self.frame(), *self.node),
        decreases *self.node, 1nat,
    {
        let size = var_size(self.node);
        match self.node {
            Var::Name(token) => self.swap(token).name("Name").print_token(out),
            Var::Index { first, index } => {
                self.emit(out, "Var Index", None, size);
                self.child(first).print_prefix(out);
                self.last(index).name("Index").print_expression(out);
            },
            Var::Dot { first, name } => {
                self.emit(out, "Var Dot", None, size);
                self.child(first).print_prefix(out);
                self.last(name).name("Name").print_token(out);
            },
        }
        proof {
            assert(visible(out@) =~= visible(old(out)@) + var_text(self.frame(), *self.node));
        }
    }
}

impl<'a> AstPrint<'a, Expression<'a>> {
    /// The printed tree of the expression
    pub fn pieces(&self) -> (out: Vec<Piece>)
        ensures
            visible(out@) == expression_text(self.frame(), *self.node()),
    {
        let mut out: Vec<Piece> = Vec::new();
        proof {
            assert(visible(out@) =~= Seq::<Piece>::empty());
        }
        self.print_expression(&mut out);
        proof {
            assert(visible(out@) =~= expression_text(self.frame(), *self.node()));
        }
        out
    }

    /// Display an expression
    fn print_expression(&self, out: &mut Vec<Piece>)
        ensures
            visible(final(out)@) == visible(old(out)@) + expression_text(self.frame(), *self.node),
        decreases *self.node, 1nat,
    {
        let size = expression_size(self.node);
        match self.node {
            Expression::Nil => self.emit(out, "Nil", None, 0),
            Expression::False => self.emit(out, "False", None, 0),
            Expression::True => self.emit(out, "True", None, 0),
            Expression::Number(token) => self.swap(token).name("Number").print_token(out),
            Expression::String(token) => self.swap(token).name("String").print_token(out),
            Expression::DotDotDot => self.emit(out, "\"...\"", None, 0),
            Expression::Function(function) => self.swap(function).print_function(out),
            Expression::Prefix(pre) => self.swap(pre).print_prefix(out),
            Expression::Table(fields) => self.swap(fields).name("Table").print_field_list(out),
            Expression::Binary { left, op, right } => {
                self.emit(out, "Binary", None, size);
                self.child(&**left).name("Left").print_expression(out);
                self.child(op).name("Op").print_binary_operator(out);
                self.last(&**right).name("Right").print_expression(out);
            },
            Expression::Unary { expr, op } => {
                self.emit(out, "Unary", None, size);
                self.child(op).name("Op").print_unary_operator(out);
                self.last(&**expr).print_expression(out);
            },
        }
        proof {
            assert(visible(out@) =~= visible(old(out)@) + expression_text(self.frame(), *self.node));
        }
    }
}

impl<'a> AstPrint<'a, PrefixExpression<'a>> {
    /// Display a prefix expression
    fn print_prefix(&self, out: &mut Vec<Piece>)
        ensures
            visible(final(out)@) == visible(old(out)@) + prefix_text(self.frame(), *self.node),
        decreases *self.node, 1nat,
    {
        match self.node {
            PrefixExpression::Var(var) => self.swap(&**var).print_var(out),
            PrefixExpression::Call(call) => self.swap(call).print_call(out),
            PrefixExpression::Expr(expression) => {
                self.emit(out, "Parenthesised", None, prefix_size(self.node));
                self.last(&**expression).print_expression(out);
            },
        }
        proof {
            assert(visible(out@) =~= visible(old(out)@) + prefix_text(self.frame(), *self.node));
        }
    }
}

impl<'a> AstPrint<'a, FunctionCall<'a>> {
    /// Display a function call
    fn print_call(&self, out: &mut Vec<Piece>)
        ensures
            visible(final(out)@) == visible(old(out)@) + call_text(self.frame(), *self.node),
        decreases *self.node, 1nat,
    {
        let c = self.node;
        self.emit(out, "Call", None, call_size(c));
        self.child(&*c.receiver).name("Receiver").print_prefix(out);
        if let Some(method) = &c.method_name {
            self.child(method).name("Method").print_token(out);
        }
        self.last(&c.args).print_args(out);
        proof {
            assert(visible(out@) =~= visible(old(out)@) + call_text(self.frame(), *self.node));
        }
    }
}

impl<'a> AstPrint<'a, FunctionArgs<'a>> {
    /// Display the arguments of a call
    fn print_args(&self, out: &mut Vec<Piece>)
        ensures
            visible(final(out)@) == visible(old(out)@) + args_text(self.frame(), *self.node),
        decreases *self.node, 1nat,
    {
        match self.node {
            FunctionArgs::Call { exprs } => self.swap(exprs).name("Arguments").print_exprs(out),
            FunctionArgs::Table { table } => self.swap(table).name("Table Arg").print_field_list(
                out,
            ),
            FunctionArgs::String { value } => self.swap(value).name("String Arg").print_token(out),
        }
    }
}

impl<'a> AstPrint<'a, Function<'a>> {
    /// Display a function
    fn print_function(&self, out: &mut Vec<Piece>)
        ensures
            visible(final(out)@) == visible(old(out)@) + function_text(self.frame(), *self.node),
        decreases *self.node, 1nat,
    {
        self.emit(out, "Function", None, function_size(self.node));
        self.child(&self.node.parameters).print_parameters(out);
        self.last(&self.node.body).print_block(out);
        proof {
            assert(visible(out@) =~= visible(old(out)@) + function_text(self.frame(), *self.node));
        }
    }
}

impl<'a> AstPrint<'a, ParameterList<'a>> {
    /// Display a parameter list
    fn print_parameters(&self, out: &mut Vec<Piece>)
        ensures
            visible(final(out)@) == visible(old(out)@) + parameters_text(self.frame(), *self.node),
    {
        let p = self.node;
        let count: usize = if p.var_name.is_some() {
            p.names.len().saturating_add(1)
        } else {
            p.names.len()
        };
        self.emit(out, "Parameters", Some(count), parameters_size(p));
        self.swap(&p.names).print_token_items(out, count);
        match &p.var_name {
            Some(Some(name)) => {
                self.last(name).name("Var args").print_token(out);
            },
            Some(None) => {
                self.last(p).name("Var args").emit(out, "<un-named>", None, 0);
            },
            None => {},
        }
        proof {
            assert(visible(out@) =~= visible(old(out)@) + parameters_text(self.frame(), *self.node));
        }
    }
}

impl<'a> AstPrint<'a, FieldList<'a>> {
    /// Display a table constructor
    fn print_field_list(&self, out: &mut Vec<Piece>)
        ensures
            visible(final(out)@) == visible(old(out)@) + field_list_text(self.frame(), *self.node),
        decreases *self.node, 1nat,
    {
        let fl = self.node;
        let count = fl.fields.len();
        self.emit(out, "Field List", Some(count), field_list_size(fl));
        let ghost first = out@;
        let mut i: usize = 0;
        while i < fl.fields.len()
            invariant
                self.node == fl, count == fl.fields@.len(),
                i <= fl.fields@.len(),
                visible(out@) + fields_items(self.frame(), fl.fields@, count, i as int) == visible(first)
                    + fields_items(self.frame(), fl.fields@, count, 0),
            decreases fl.fields@.len() - i,
        {
            let ghost before = out@;
            if i + 1 == count {
                self.last(&fl.fields[i]).print_field(out);
            } else {
                self.child(&fl.fields[i]).print_field(out);
            }
            proof {
                let t = visible(out@);
                assert(t + fields_items(self.frame(), fl.fields@, count, i + 1) =~= visible(before) + fields_items(
                    self.frame(),
                    fl.fields@,
                    count,
                    i as int,
                ));
            }
            i = i + 1;
        }
        proof {
            assert(visible(out@) =~= visible(first) + fields_items(self.frame(), fl.fields@, count, 0));
        }
        proof {
            assert(visible(out@) =~= visible(old(out)@) + field_list_text(self.frame(), *self.node));
        }
    }
}

impl<'a> AstPrint<'a, Field<'a>> {
    /// Display a table field
    fn print_field(&self, out: &mut Vec<Piece>)
        ensures
            visible(final(out)@) == visible(old(out)@) + field_text(self.frame(), *self.node),
        decreases *self.node, 1nat,
    {
        let size = field_size(self.node);
        match self.node {
            Field::Index { index, expr } => {
                self.emit(out, "Index Field", None, size);
                self.child(index).name("Index").print_expression(out);
                self.last(expr).name("Value").print_expression(out);
            },
            Field::Assign { name, expr } => {
                self.emit(out, "Assign Field", None, size);
                self.child(name).name("Name").print_token(out);
                self.last(expr).name("Value").print_expression(out);
            },
            Field::Exp { expr } => self.swap(expr).name("Expr Field").print_expression(out),
        }
        proof {
            assert(visible(out@) =~= visible(old(out)@) + field_text(self.frame(), *self.node));
        }
    }
}

impl<'a> AstPrint<'a, BinaryOperator> {
    /// Display a binary operator
    fn print_binary_operator(&self, out: &mut Vec<Piece>)
        ensures
            visible(final(out)@) == visible(old(out)@) + line_of(self.frame(), binary_name(*self.node), None),
    {
        self.emit(out, self.node.name(), None, 0);
    }
}

impl<'a> AstPrint<'a, UnaryOperator> {
    /// Display a unary operator
    fn print_unary_operator(&self, out: &mut Vec<Piece>)
        ensures
            visible(final(out)@) == visible(old(out)@) + line_of(self.frame(), unary_name(*self.node), None),
    {
        self.emit(out, self.node.name(), None, 0);
    }
}

} // verus!
