//! Name resolution: turning the syntax tree into a tree whose names are
//! resolved to variables, and whose literals are processed.

pub mod literal;
pub mod name_tree;
pub mod name_tree_print;
pub mod name_tree_refs;
pub mod name_tree_size;

use vstd::prelude::*;

use crate::name_resolution::literal::{
    all_hex_digits, hex_int, hex_number_value, string_remove_quotes, literal_contents,
    unescape, unescape_string, push_utf8, EscapeError,
};
use crate::name_resolution::name_tree as nt;
use crate::name_resolution::name_tree_refs as refs;
use crate::name_resolution::name_tree_refs::Tables;
use crate::parser::ast;
use crate::parser::lexer::Token;

verus! {

/// Interning table from the bytes of a string to its id.  The map itself is
/// hidden; its contents are `lookup_contents`.
#[verifier::external_body]
pub struct StringLookup {
    map: hashbrown::HashMap<Vec<u8>, u32>,
}

/// What a string lookup table holds: each key's id.
pub uninterp spec fn lookup_contents(lookup: StringLookup) -> Map<Seq<u8>, u32>;

/// An empty lookup table: `hashbrown::HashMap::new`.
#[verifier::external_body]
fn lookup_new() -> (res: StringLookup)
    ensures
        lookup_contents(res).dom().len() == 0,
        lookup_contents(res).dom().finite(),
{
    StringLookup { map: hashbrown::HashMap::new() }
}

/// Look a key up with `hashbrown::HashMap::entry_ref`.  When the key is
/// present, its id is returned with `false` and nothing changes; when it is
/// absent, it is inserted with the id `fresh` (`VacantEntryRef::insert_entry`)
/// and `fresh` is returned with `true`.
#[verifier::external_body]
fn lookup_entry(lookup: &mut StringLookup, key: &[u8], fresh: u32) -> (res: (u32, bool))
    ensures
        lookup_contents(*old(lookup)).contains_key(key@) ==> {
            &&& res == (lookup_contents(*old(lookup))[key@], false)
            &&& lookup_contents(*final(lookup)) == lookup_contents(*old(lookup))
        },
        !lookup_contents(*old(lookup)).contains_key(key@) ==> {
            &&& res == (fresh, true)
            &&& lookup_contents(*final(lookup)) == lookup_contents(*old(lookup)).insert(
                key@,
                fresh,
            )
        },
{
    match lookup.map.entry_ref(key) {
        hashbrown::hash_map::EntryRef::Occupied(entry) => (*entry.get(), false),
        hashbrown::hash_map::EntryRef::Vacant(entry) => (*entry.insert_entry(fresh).get(), true),
    }
}

/// Why a syntax tree could not be resolved
#[derive(Debug, Clone, Copy)]
pub enum ResolveError<'a> {
    /// Assignment to a variable declared `<const>`
    AssignToConst(Token<'a>),
    /// `local function a:b()`
    LocalFunctionMethod,
    /// `local function a.b()`
    LocalFunctionPath,
    /// `global function a:b()`
    GlobalFunctionMethod,
    /// `global function a.b()`
    GlobalFunctionPath,
    /// A function statement without any name
    NoFunctionName,
    /// `local<close> a, b`
    CloseOnMany,
    /// An attribute other than `const` or `close`
    UnknownAttribute(Token<'a>),
    /// `<close>` on a global variable
    GlobalClose,
    /// More variables than ids can number
    TooManyVariables,
    /// More strings than ids can number
    TooManyStrings,
    /// Scopes nested deeper than can be counted
    TooDeep,
    /// An invalid escape sequence in a string literal
    Escape(EscapeError),
    /// A hexadecimal integer literal with a character that is not a digit
    InvalidHexDigit,
    /// Labels, `break` and `goto` are not resolved yet
    Unsupported,
}

/// All state for variable resolution
#[derive(Debug, Clone, Copy, PartialEq, Eq, Structural)]
pub enum Variable {
    Var {
        depth: usize,
        id: nt::VariableId,
        /// if the variable is limited to being used in a specified function and should
        /// not be resolved in a deeper function
        func_depth: Option<usize>,
    },
    /// Refer to an existing variable with a different name.  Note that this is
    /// only referencing a variable, alias -> alias is not supported.
    Alias { depth: usize, name: nt::StringId, id: nt::VariableId },
}

/// Result of resolving a name
#[derive(Debug)]
pub enum ResolveResult {
    Local(nt::VariableId),
    Global {
        /// value of `_ENV` at the point the variable was resolved
        env: nt::VariableId,
        /// string to lookup within `_ENV`
        names: Vec<nt::StringId>,
    },
}

/// Whether the ids of a resolved name refer to entries of the tables
pub open spec fn result_refs(r: ResolveResult, t: Tables) -> bool {
    match r {
        ResolveResult::Local(id) => id.0 < t.variables,
        ResolveResult::Global { env, names } => env.0 < t.variables && refs::strings_below(
            names@,
            t.strings,
        ),
    }
}

/// Whether `t` is the resolved form of the statement `s`, for a statement
/// that resolves to a single one
pub open spec fn resolves_to<'a>(s: ast::Statement<'a>, t: nt::Statement, strs: Seq<Seq<u8>>) -> bool
    decreases s, 0nat,
{
    match s {
        ast::Statement::Empty => t is Empty,
        ast::Statement::Assign { vars, exps } => t matches nt::Statement::Assign {
            vars: v,
            exps: e,
            is_global_init,
        } && v@.len() == vars@.len() && (forall|i: int|
            0 <= i < vars@.len() ==> var_corresponds(#[trigger] vars@[i], v@[i], strs))
            && exprs_correspond(exps@, e@, strs) && !is_global_init,
        ast::Statement::Call(c) => t matches nt::Statement::Call(d) && call_corresponds(c, d, strs),
        ast::Statement::Block(block) => t matches nt::Statement::Block(b) && block_corresponds(
            block,
            b,
            strs,
        ),
        ast::Statement::While { expr, block } => t matches nt::Statement::While {
            expr: e,
            block: b,
        } && expr_corresponds(expr, e, strs) && block_corresponds(block, b, strs),
        ast::Statement::Repeat { block, expr } => t matches nt::Statement::Repeat {
            block: b,
            expr: e,
            ..
        } && block_corresponds(block, b, strs) && expr_corresponds(expr, e, strs),
        ast::Statement::If { expr, block, elseif, else_block } => t matches nt::Statement::If {
            expr: x,
            block: b,
            elseif: e,
            else_block: eb,
        } && expr_corresponds(expr, x, strs) && block_corresponds(block, b, strs) && e@.len()
            == elseif@.len() && (forall|i: int|
            0 <= i < e@.len() ==> expr_corresponds((#[trigger] elseif@[i]).0, e@[i].0, strs)
                && block_corresponds(elseif@[i].1, e@[i].1, strs)) && match else_block {
            Some(y) => eb matches Some(z) && block_corresponds(y, z, strs),
            None => eb is None,
        },
        ast::Statement::For { initial, limit, step, block, .. } => t matches nt::Statement::For {
            initial: i,
            limit: l,
            step: st,
            block: b,
            ..
        } && expr_corresponds(initial, i, strs) && expr_corresponds(limit, l, strs) && match step {
            Some(x) => st matches Some(y) && expr_corresponds(x, y, strs),
            None => st is None,
        } && block_corresponds(block, b, strs),
        ast::Statement::ForEach { names, exprs, block } => t matches nt::Statement::ForEach {
            names: n,
            exprs: e,
            block: b,
        } && n@.len() == names@.len() && exprs_correspond(exprs@, e@, strs) && block_corresponds(block, b, strs),
        ast::Statement::Function { body, .. } => t matches nt::Statement::Function {
            body: f,
            ..
        } && block_corresponds(body.body, f.body, strs),
        _ => false,
    }
}

/// Whether the resolved block `b` is what the block `block` resolves to:
/// its statements correspond, and it returns what its returned expressions
/// resolve to when it returns
pub open spec fn block_corresponds<'a>(block: ast::Block<'a>, b: nt::Block, strs: Seq<Seq<u8>>) -> bool
    decreases block, 2nat,
{
    &&& stmts_correspond(block.statements@, b.statements@, strs)
    &&& (b.ret_stat is Some <==> block.ret_stat is Some)
    &&& (b.ret_stat matches Some(r) ==> exprs_correspond(block.ret_stat->0.exprs@, r.exprs@, strs))
}

/// Whether an optional attribute is `<const>`
pub open spec fn attr_is_const<'a>(a: Option<ast::Attribute<'a>>) -> bool {
    a matches Some(x) && x.name.value@ == seq!['c', 'o', 'n', 's', 't']
}

/// Whether an optional attribute is `<close>`
pub open spec fn attr_is_close<'a>(a: Option<ast::Attribute<'a>>) -> bool {
    a matches Some(x) && x.name.value@ == seq!['c', 'l', 'o', 's', 'e']
}

/// Whether an optional attribute is absent, `<const>` or `<close>`
pub open spec fn attr_known<'a>(a: Option<ast::Attribute<'a>>) -> bool {
    a is None || attr_is_const(a) || attr_is_close(a)
}

/// Whether `l` is the variable that a local declaration of `name`, in a list
/// with the attribute `all`, defines: named by the name's text, on its line,
/// `<const>` or `<close>` when either attribute says so.
pub open spec fn declared_local<'a>(
    l: nt::Local,
    strings: Seq<Seq<u8>>,
    name: (Token<'a>, Option<ast::Attribute<'a>>),
    all: Option<ast::Attribute<'a>>,
) -> bool {
    &&& l.line == Some(name.0.line)
    &&& strings[l.name.0 as int] == vstd::utf8::encode_utf8(name.0.value@)
    &&& l.attr_const == (attr_is_const(all) || attr_is_const(name.1))
    &&& l.attr_close == (attr_is_close(all) || attr_is_close(name.1))
}

/// Whether `l` is a plain variable, neither `<const>` nor `<close>`, named
/// `text`, defined on the line `line`
pub open spec fn plain_var(l: nt::Local, strings: Seq<Seq<u8>>, text: Seq<u8>, line: Option<usize>) -> bool {
    &&& l.line == line
    &&& strings[l.name.0 as int] == text
    &&& !l.attr_const
    &&& !l.attr_close
}

/// The bytes of `self`
pub open spec fn self_name() -> Seq<u8> {
    seq![0x73u8, 0x65u8, 0x6Cu8, 0x66u8]
}

/// The bytes of `...`
pub open spec fn dots_name() -> Seq<u8> {
    seq![0x2Eu8, 0x2Eu8, 0x2Eu8]
}

/// Whether `self_var` is present exactly for a method, as a plain variable
/// named `self`
pub open spec fn self_declared(
    self_var: Option<nt::VariableId>,
    vars: Seq<nt::Local>,
    strings: Seq<Seq<u8>>,
    has_self: bool,
) -> bool {
    &&& (self_var is Some <==> has_self)
    &&& (self_var matches Some(v) ==> v.0 < vars.len() && plain_var(
        vars[v.0 as int],
        strings,
        self_name(),
        None,
    ))
}

/// Whether each id of `names` is a plain variable named by the parameter
/// token at the same place, on its line
pub open spec fn names_declared<'a>(
    names: Seq<nt::VariableId>,
    vars: Seq<nt::Local>,
    strings: Seq<Seq<u8>>,
    toks: Seq<Token<'a>>,
) -> bool {
    &&& names.len() <= toks.len()
    &&& forall|i: int|
        0 <= i < names.len() ==> (#[trigger] names[i]).0 < vars.len() && plain_var(
            vars[names[i].0 as int],
            strings,
            vstd::utf8::encode_utf8(toks[i].value@),
            Some(toks[i].line),
        )
}

/// Whether `var_name` is present exactly for a variadic function, as a plain
/// variable named `...`
pub open spec fn var_name_declared<'a>(
    var_name: Option<nt::VariableId>,
    vars: Seq<nt::Local>,
    strings: Seq<Seq<u8>>,
    variadic: Option<Option<Token<'a>>>,
) -> bool {
    &&& (var_name is Some <==> variadic is Some)
    &&& (var_name matches Some(v) ==> v.0 < vars.len() && plain_var(
        vars[v.0 as int],
        strings,
        dots_name(),
        None,
    ))
}

/// Whether the resolved parameters `p` define the variables that the
/// parameter list `params` declares
pub open spec fn params_declared<'a>(
    p: nt::ParameterList,
    vars: Seq<nt::Local>,
    strings: Seq<Seq<u8>>,
    params: ast::ParameterList<'a>,
    has_self: bool,
) -> bool {
    &&& self_declared(p.self_var, vars, strings, has_self)
    &&& p.names@.len() == params.names@.len()
    &&& names_declared(p.names@, vars, strings, params.names@)
    &&& var_name_declared(p.var_name, vars, strings, params.var_name)
}

/// Whether the string ids `ids` name the texts of the tokens `toks`, in
/// order
pub open spec fn strings_named<'a>(
    ids: Seq<nt::StringId>,
    strings: Seq<Seq<u8>>,
    toks: Seq<Token<'a>>,
) -> bool {
    &&& ids.len() == toks.len()
    &&& forall|j: int|
        0 <= j < ids.len() ==> (#[trigger] ids[j]).0 < strings.len() && strings[ids[j].0 as int]
            == vstd::utf8::encode_utf8(toks[j].value@)
}

/// Whether `out` is `old` followed by what a local declaration of `names`
/// with `n_exprs` values appends, its variables being the last of `vars`:
/// their `ScopeStart`s in order, then, with values, one assignment to them.
/// The attributes are all known, and `<close>` is on at most one name.
pub open spec fn declares_locals<'a>(
    old: Seq<nt::Statement>,
    out: Seq<nt::Statement>,
    vars: Seq<nt::Local>,
    strings: Seq<Seq<u8>>,
    names: ast::AttributeNameList<'a>,
    n_exprs: int,
) -> bool {
    let k = names.names@.len() as int;
    let m = vars.len() - k;
    let o = old.len() as int;
    &&& attr_known(names.attrib)
    &&& !(attr_is_close(names.attrib) && k > 1)
    &&& forall|i: int| 0 <= i < k ==> attr_known((#[trigger] names.names@[i]).1)
    &&& 0 <= m
    &&& out.len() == o + k + if n_exprs > 0 {
        1int
    } else {
        0int
    }
    &&& out.take(o) == old
    &&& forall|j: int|
        o <= j < o + k ==> #[trigger] out[j] == nt::Statement::ScopeStart(
            nt::VariableId((m + j - o) as u32),
        )
    &&& forall|i: int|
        0 <= i < k ==> declared_local(vars[m + i], strings, #[trigger] names.names@[i], names.attrib)
    &&& n_exprs > 0 ==> (out.last() matches nt::Statement::Assign {
        vars: v,
        exps,
        is_global_init,
    } && !is_global_init && exps@.len() == n_exprs && v@.len() == k && forall|i: int|
        0 <= i < k ==> v@[i] == nt::Var::LocalName(nt::VariableId((m + i) as u32)))
}

/// Whether `out` is `old` followed by what a global declaration of `names`
/// with `n_exprs` values appends: with values, one global assignment to the
/// names, else nothing.  The attributes are all known and none is `<close>`.
pub open spec fn declares_globals<'a>(
    old: Seq<nt::Statement>,
    out: Seq<nt::Statement>,
    names: ast::AttributeNameList<'a>,
    n_exprs: int,
) -> bool {
    let o = old.len() as int;
    &&& attr_known(names.attrib) && !attr_is_close(names.attrib)
    &&& forall|i: int|
        0 <= i < names.names@.len() ==> attr_known((#[trigger] names.names@[i]).1)
            && !attr_is_close(names.names@[i].1)
    &&& out.take(o) == old
    &&& out.len() == o + if n_exprs > 0 {
        1int
    } else {
        0int
    }
    &&& n_exprs > 0 ==> (out.last() matches nt::Statement::Assign { vars, exps, is_global_init }
        && is_global_init && vars@.len() == names.names@.len() && exps@.len() == n_exprs)
}

/// Whether, for values `exprs`, the last of the resolved statements `out`
/// assigns what they resolve to
pub open spec fn assigns_values<'a>(exprs: Seq<ast::Expression<'a>>, out: Seq<nt::Statement>, strs: Seq<Seq<u8>>) -> bool {
    exprs.len() > 0 ==> (out.last() matches nt::Statement::Assign { exps, .. } && exprs_correspond(
        exprs,
        exps@,
        strs,
    ))
}

/// Whether `out` is `old` followed by what the declaration `s` appends
pub open spec fn declares<'a>(
    s: ast::Statement<'a>,
    old: Seq<nt::Statement>,
    out: Seq<nt::Statement>,
    vars: Seq<nt::Local>,
    strings: Seq<Seq<u8>>,
) -> bool {
    match s {
        ast::Statement::Declare { vis: ast::Visibility::Local, names, exprs } => declares_locals(
            old,
            out,
            vars,
            strings,
            names,
            exprs@.len() as int,
        ),
        ast::Statement::Declare { vis: ast::Visibility::Global, names, exprs } => declares_globals(
            old,
            out,
            names,
            exprs@.len() as int,
        ),
        _ => false,
    }
}

/// `new` is the scope `old` followed by bindings made at depth `d` or
/// deeper, of variables numbered `n` or more
pub open spec fn scope_pushed(old: Seq<Variable>, new: Seq<Variable>, d: usize, n: nat) -> bool {
    &&& old.len() <= new.len()
    &&& new.take(old.len() as int) == old
    &&& forall|j: int|
        old.len() <= j < new.len() ==> variable_depth(#[trigger] new[j]) >= d && variable_id(
            new[j],
        ).0 >= n
}

/// A scope is itself followed by no bindings
pub proof fn lemma_pushed_refl(s: Seq<Variable>, d: usize, n: nat)
    ensures
        scope_pushed(s, s, d, n),
{
    assert(s.take(s.len() as int) =~= s);
}

/// Bindings pushed after bindings pushed were pushed
pub proof fn lemma_pushed_trans(
    a: Seq<Variable>,
    b: Seq<Variable>,
    c: Seq<Variable>,
    d: usize,
    n1: nat,
    n2: nat,
)
    requires
        scope_pushed(a, b, d, n1),
        scope_pushed(b, c, d, n2),
        n1 <= n2,
    ensures
        scope_pushed(a, c, d, n1),
{
    assert(c.take(a.len() as int) =~= c.take(b.len() as int).take(a.len() as int));
    assert forall|j: int| a.len() <= j < c.len() implies variable_depth(#[trigger] c[j]) >= d
        && variable_id(c[j]).0 >= n1 by {
        if j < b.len() {
            assert(c[j] == c.take(b.len() as int)[j]);
        }
    }
}

/// Pushing one more binding deep enough, of a variable numbered high enough
pub proof fn lemma_pushed_push(a: Seq<Variable>, b: Seq<Variable>, v: Variable, d: usize, n: nat)
    requires
        scope_pushed(a, b, d, n),
        variable_depth(v) >= d,
        variable_id(v).0 >= n,
    ensures
        scope_pushed(a, b.push(v), d, n),
{
    assert(b.push(v).take(a.len() as int) =~= b.take(a.len() as int));
    assert forall|j: int| a.len() <= j < b.push(v).len() implies variable_depth(
        #[trigger] b.push(v)[j],
    ) >= d && variable_id(b.push(v)[j]).0 >= n by {
        if j < b.len() {
            assert(b.push(v)[j] == b[j]);
        }
    }
}

/// Leaving a scope entered at depth `d + 1` drops exactly the bindings made
/// since: those of the scope before are at depth `d` or less, those made
/// since deeper.
pub proof fn lemma_leave_restores(s0: Seq<Variable>, s1: Seq<Variable>, k: int, d: usize, n: nat)
    requires
        scope_pushed(s0, s1, (d + 1) as usize, n),
        d < usize::MAX,
        forall|j: int| 0 <= j < s0.len() ==> variable_depth(#[trigger] s0[j]) <= d,
        1 <= s0.len(),
        1 <= k <= s1.len(),
        variable_depth(s1[k - 1]) <= d,
        forall|j: int| k <= j < s1.len() ==> variable_depth(#[trigger] s1[j]) > d,
    ensures
        k == s0.len(),
        s1.take(k) == s0,
{
    if k > s0.len() {
        assert(variable_depth(s1[k - 1]) >= d + 1);
    }
    if k < s0.len() {
        let j = s0.len() - 1;
        assert(s1[j] == s1.take(s0.len() as int)[j]);
        assert(variable_depth(s0[j]) <= d);
        assert(variable_depth(s1[j]) > d);
    }
}

/// Whether `v` is what the name with the UTF-8 text `text` resolves to in
/// the scope `scope`, from function depth `fd`: its innermost binding, or,
/// when it has none, the name looked up in the innermost `_ENV`
pub open spec fn name_resolves_to(
    v: nt::Var,
    scope: Seq<Variable>,
    vars: Seq<nt::Local>,
    strings: Seq<Seq<u8>>,
    fd: usize,
    text: Seq<u8>,
) -> bool {
    let s = id_of(strings, text);
    let env = id_of(strings, environment_name());
    let n = scope.len() as int;
    match innermost(scope, vars, s, fd, n) {
        Some(id) => v == nt::Var::LocalName(id),
        None => v matches nt::Var::GlobalNames { env: e, names } && names@ == seq![s] && Some(e)
            == innermost(scope, vars, env, fd, n),
    }
}

/// Whether the name with the UTF-8 text `text` resolves, in the scope
/// `scope` from function depth `fd`, to a `<const>` local
pub open spec fn names_const(
    scope: Seq<Variable>,
    vars: Seq<nt::Local>,
    strings: Seq<Seq<u8>>,
    fd: usize,
    text: Seq<u8>,
) -> bool {
    innermost(scope, vars, id_of(strings, text), fd, scope.len() as int) matches Some(id)
        && vars[id.0 as int].attr_const
}

/// Whether the resolved statements `seg` are what the statement `s`
/// resolves to: one statement of the same kind; for a local declaration the
/// `ScopeStart` of each name, then, with values, an assignment to those
/// variables; for a global declaration with values, a global assignment;
/// nothing for a global declaration without values or `global *`.
pub open spec fn emits<'a>(s: ast::Statement<'a>, seg: Seq<nt::Statement>, strs: Seq<Seq<u8>>) -> bool
    decreases s, 1nat,
{
    match s {
        ast::Statement::Declare { vis: ast::Visibility::Local, names, exprs } => {
            let k = names.names@.len() as int;
            &&& seg.len() == k + if exprs@.len() > 0 {
                1int
            } else {
                0int
            }
            &&& forall|j: int| 0 <= j < k ==> (#[trigger] seg[j]) is ScopeStart
            &&& exprs@.len() > 0 ==> (seg[k] matches nt::Statement::Assign {
                vars,
                exps,
                is_global_init,
            } && !is_global_init && exprs_correspond(exprs@, exps@, strs) && vars@.len() == k && forall|
                j: int,
            |
                0 <= j < k ==> #[trigger] vars@[j] == nt::Var::LocalName(seg[j]->ScopeStart_0))
        },
        ast::Statement::Declare { vis: ast::Visibility::Global, names, exprs } => {
            &&& seg.len() == if exprs@.len() > 0 {
                1int
            } else {
                0int
            }
            &&& exprs@.len() > 0 ==> (seg[0] matches nt::Statement::Assign {
                vars,
                exps,
                is_global_init,
            } && is_global_init && vars@.len() == names.names@.len() && exprs_correspond(
                exprs@,
                exps@,
                strs,
            ))
        },
        ast::Statement::GlobalCollective { .. } => seg.len() == 0,
        _ => seg.len() == 1 && resolves_to(s, seg[0], strs),
    }
}

/// Whether the string `id` of the table `strs` holds the UTF-8 text `text`
pub open spec fn names_text(strs: Seq<Seq<u8>>, id: nt::StringId, text: Seq<char>) -> bool {
    id.0 < strs.len() && strs[id.0 as int] == vstd::utf8::encode_utf8(text)
}

/// Whether the string `id` of the table `strs` holds what the string
/// literal `text` stands for: the text between the brackets of a long
/// string as it is, that between the quotes of a short one with its escape
/// sequences processed
pub open spec fn string_literal(strs: Seq<Seq<u8>>, id: nt::StringId, text: Seq<char>) -> bool {
    &&& id.0 < strs.len()
    &&& if text.len() > 0 && text[0] == '[' {
        strs[id.0 as int] == vstd::utf8::encode_utf8(literal_contents(text))
    } else {
        unescape(literal_contents(text)) == Ok::<Seq<u8>, EscapeError>(strs[id.0 as int])
    }
}

/// Whether the resolved expression `n` is what the expression `a` resolves
/// to against the string table `strs`: of the same form, with the same
/// operators, number literals converted, string literals and names interned
/// in `strs`, and with every subexpression, call and nested block resolved
/// alike
pub open spec fn expr_corresponds<'a>(a: ast::Expression<'a>, n: nt::Expression, strs: Seq<Seq<u8>>) -> bool
    decreases a, 0nat,
{
    match a {
        ast::Expression::Nil => n is Nil,
        ast::Expression::False => n == nt::Expression::Bool(false),
        ast::Expression::True => n == nt::Expression::Bool(true),
        ast::Expression::Number(tok) => n matches nt::Expression::Number(m) && number_resolves(
            tok.value@,
            m,
        ),
        ast::Expression::String(tok) => n matches nt::Expression::String(id) && string_literal(
            strs,
            id,
            tok.value@,
        ),
        ast::Expression::DotDotDot => n matches nt::Expression::Prefix(
            nt::PrefixExpression::Var(v),
        ) && (*v is LocalName || *v is GlobalNames),
        ast::Expression::Function(f) => n matches nt::Expression::Function(g) && block_corresponds(
            f.body,
            g.body,
            strs,
        ),
        ast::Expression::Prefix(p) => n matches nt::Expression::Prefix(q) && prefix_corresponds(
            p,
            q,
            strs,
        ),
        ast::Expression::Table(t) => n matches nt::Expression::Table(u) && fields_correspond(
            t.fields@,
            u.fields@,
            strs,
        ),
        ast::Expression::Binary { left, op, right } => n matches nt::Expression::Binary {
            left: l,
            op: o,
            right: r,
        } && o == op && expr_corresponds(*left, *l, strs) && expr_corresponds(*right, *r, strs),
        ast::Expression::Unary { expr, op } => n matches nt::Expression::Unary { expr: e, op: o }
            && o == op && expr_corresponds(*expr, *e, strs),
    }
}

/// Whether the resolved prefix expression `n` is what `a` resolves to
pub open spec fn prefix_corresponds<'a>(a: ast::PrefixExpression<'a>, n: nt::PrefixExpression, strs: Seq<Seq<u8>>) -> bool
    decreases a, 0nat,
{
    match a {
        ast::PrefixExpression::Var(v) => n matches nt::PrefixExpression::Var(w) && var_corresponds(
            *v,
            *w,
            strs,
        ),
        ast::PrefixExpression::Call(c) => n matches nt::PrefixExpression::Call(d)
            && call_corresponds(c, d, strs),
        ast::PrefixExpression::Expr(e) => n matches nt::PrefixExpression::Expr(f)
            && expr_corresponds(*e, *f, strs),
    }
}

/// Whether the resolved variable `n` is what `a` resolves to
pub open spec fn var_corresponds<'a>(a: ast::Var<'a>, n: nt::Var, strs: Seq<Seq<u8>>) -> bool
    decreases a, 0nat,
{
    match a {
        ast::Var::Name(_) => n is LocalName || n is GlobalNames,
        ast::Var::Index { first, index } => n matches nt::Var::Index { first: f, index: i }
            && prefix_corresponds(first, f, strs) && expr_corresponds(index, i, strs),
        ast::Var::Dot { first, name } => n matches nt::Var::Dot { first: f, name: id }
            && prefix_corresponds(first, f, strs) && names_text(strs, id, name.value@),
    }
}

/// Whether the resolved call `n` is what the call `a` resolves to
pub open spec fn call_corresponds<'a>(a: ast::FunctionCall<'a>, n: nt::FunctionCall, strs: Seq<Seq<u8>>) -> bool
    decreases a, 0nat,
{
    &&& prefix_corresponds(*a.receiver, *n.receiver, strs)
    &&& match a.method_name {
        Some(m) => n.method_name matches Some(id) && names_text(strs, id, m.value@),
        None => n.method_name is None,
    }
    &&& match a.args {
        ast::FunctionArgs::Call { exprs } => n.args matches nt::FunctionArgs::Call { exprs: e }
            && exprs_correspond(exprs@, e@, strs),
        ast::FunctionArgs::Table { table } => n.args matches nt::FunctionArgs::Table { table: t }
            && fields_correspond(table.fields@, t.fields@, strs),
        ast::FunctionArgs::String { value } => n.args matches nt::FunctionArgs::String {
            value: id,
        } && names_text(strs, id, value.value@),
    }
}

/// Whether the resolved expressions `n` are, in order, what the
/// expressions `a` resolve to
pub open spec fn exprs_correspond<'a>(a: Seq<ast::Expression<'a>>, n: Seq<nt::Expression>, strs: Seq<Seq<u8>>) -> bool
    decreases a, 1nat,
{
    &&& n.len() == a.len()
    &&& forall|i: int| 0 <= i < a.len() ==> expr_corresponds(#[trigger] a[i], n[i], strs)
}

/// Whether the resolved table fields `n` are, in order, what the fields `a`
/// resolve to
pub open spec fn fields_correspond<'a>(a: Seq<ast::Field<'a>>, n: Seq<nt::Field>, strs: Seq<Seq<u8>>) -> bool
    decreases a, 1nat,
{
    &&& n.len() == a.len()
    &&& forall|i: int|
        0 <= i < a.len() ==> match #[trigger] a[i] {
            ast::Field::Index { index, expr } => n[i] matches nt::Field::Index {
                index: x,
                expr: y,
            } && expr_corresponds(index, x, strs) && expr_corresponds(expr, y, strs),
            ast::Field::Assign { name, expr } => n[i] matches nt::Field::Assign {
                name: id,
                expr: y,
            } && names_text(strs, id, name.value@) && expr_corresponds(expr, y, strs),
            ast::Field::Exp { expr } => n[i] matches nt::Field::Exp { expr: y } && expr_corresponds(
                expr,
                y,
                strs,
            ),
        }
}

/// How many resolved statements the statement `s` resolves to
pub open spec fn emitted_len<'a>(s: ast::Statement<'a>) -> int {
    match s {
        ast::Statement::Declare { vis: ast::Visibility::Local, names, exprs } => names.names@.len()
            + if exprs@.len() > 0 {
            1int
        } else {
            0int
        },
        ast::Statement::Declare { vis: ast::Visibility::Global, exprs, .. } => if exprs@.len() > 0 {
            1int
        } else {
            0int
        },
        ast::Statement::GlobalCollective { .. } => 0,
        _ => 1,
    }
}

/// How many resolved statements the statements `a` resolve to
pub open spec fn total_len<'a>(a: Seq<ast::Statement<'a>>) -> int
    decreases a.len(),
{
    if a.len() == 0 {
        0
    } else {
        total_len(a.drop_last()) + emitted_len(a.last())
    }
}

/// Whether the resolved statements `n` are, in order, what the statements
/// `a` resolve to
pub open spec fn stmts_correspond<'a>(a: Seq<ast::Statement<'a>>, n: Seq<nt::Statement>, strs: Seq<Seq<u8>>) -> bool
    decreases a, 3nat,
{
    &&& n.len() == total_len(a)
    &&& forall|i: int|
        0 <= i < a.len() ==> emits(
            #[trigger] a[i],
            n.subrange(total_len(a.take(i)), total_len(a.take(i)) + emitted_len(a[i])),
            strs,
        )
}

/// Whether the string table `s2` extends `s1`: it holds the strings of
/// `s1` at the same ids, and maybe more after them
pub open spec fn extends(s1: Seq<Seq<u8>>, s2: Seq<Seq<u8>>) -> bool {
    &&& s1.len() <= s2.len()
    &&& forall|i: int| 0 <= i < s1.len() ==> #[trigger] s2[i] == s1[i]
}

/// Extending a table twice extends it
pub proof fn lemma_extends_trans(s1: Seq<Seq<u8>>, s2: Seq<Seq<u8>>, s3: Seq<Seq<u8>>)
    requires
        extends(s1, s2),
        extends(s2, s3),
    ensures
        extends(s1, s3),
{
    assert forall|i: int| 0 <= i < s1.len() implies #[trigger] s3[i] == s1[i] by {
        assert(s3[i] == s2[i]);
    }
}

/// What an expression resolves to against a string table, it resolves to
/// against every extension of that table
pub proof fn lemma_expr_extends<'a>(
    a: ast::Expression<'a>,
    n: nt::Expression,
    s1: Seq<Seq<u8>>,
    s2: Seq<Seq<u8>>,
)
    requires
        expr_corresponds(a, n, s1),
        extends(s1, s2),
    ensures
        expr_corresponds(a, n, s2),
    decreases a, 0nat,
{
    match a {
        ast::Expression::Function(f) => {
            lemma_block_extends(f.body, n->Function_0.body, s1, s2);
        },
        ast::Expression::Prefix(p) => {
            lemma_prefix_extends(p, n->Prefix_0, s1, s2);
        },
        ast::Expression::Table(t) => {
            lemma_fields_extends(t.fields@, n->Table_0.fields@, s1, s2);
        },
        ast::Expression::Binary { left, right, .. } => {
            lemma_expr_extends(*left, *n->Binary_left, s1, s2);
            lemma_expr_extends(*right, *n->Binary_right, s1, s2);
        },
        ast::Expression::Unary { expr, .. } => {
            lemma_expr_extends(*expr, *n->Unary_expr, s1, s2);
        },
        _ => {},
    }
}

/// A prefix expression resolves alike against every extension of a table
pub proof fn lemma_prefix_extends<'a>(
    a: ast::PrefixExpression<'a>,
    n: nt::PrefixExpression,
    s1: Seq<Seq<u8>>,
    s2: Seq<Seq<u8>>,
)
    requires
        prefix_corresponds(a, n, s1),
        extends(s1, s2),
    ensures
        prefix_corresponds(a, n, s2),
    decreases a, 0nat,
{
    match a {
        ast::PrefixExpression::Var(v) => {
            lemma_var_extends(*v, *n->Var_0, s1, s2);
        },
        ast::PrefixExpression::Call(c) => {
            lemma_call_extends(c, n->Call_0, s1, s2);
        },
        ast::PrefixExpression::Expr(e) => {
            lemma_expr_extends(*e, *n->Expr_0, s1, s2);
        },
    }
}

/// A variable resolves alike against every extension of a table
pub proof fn lemma_var_extends<'a>(a: ast::Var<'a>, n: nt::Var, s1: Seq<Seq<u8>>, s2: Seq<Seq<u8>>)
    requires
        var_corresponds(a, n, s1),
        extends(s1, s2),
    ensures
        var_corresponds(a, n, s2),
    decreases a, 0nat,
{
    match a {
        ast::Var::Index { first, index } => {
            lemma_prefix_extends(first, n->Index_first, s1, s2);
            lemma_expr_extends(index, n->Index_index, s1, s2);
        },
        ast::Var::Dot { first, .. } => {
            lemma_prefix_extends(first, n->Dot_first, s1, s2);
        },
        _ => {},
    }
}

/// A call resolves alike against every extension of a table
pub proof fn lemma_call_extends<'a>(
    a: ast::FunctionCall<'a>,
    n: nt::FunctionCall,
    s1: Seq<Seq<u8>>,
    s2: Seq<Seq<u8>>,
)
    requires
        call_corresponds(a, n, s1),
        extends(s1, s2),
    ensures
        call_corresponds(a, n, s2),
    decreases a, 0nat,
{
    lemma_prefix_extends(*a.receiver, *n.receiver, s1, s2);
    match a.args {
        ast::FunctionArgs::Call { exprs } => {
            lemma_exprs_extends(exprs@, n.args->Call_exprs@, s1, s2);
        },
        ast::FunctionArgs::Table { table } => {
            lemma_fields_extends(table.fields@, n.args->Table_table.fields@, s1, s2);
        },
        _ => {},
    }
}

/// Expressions resolve alike against every extension of a table
pub proof fn lemma_exprs_extends<'a>(
    a: Seq<ast::Expression<'a>>,
    n: Seq<nt::Expression>,
    s1: Seq<Seq<u8>>,
    s2: Seq<Seq<u8>>,
)
    requires
        exprs_correspond(a, n, s1),
        extends(s1, s2),
    ensures
        exprs_correspond(a, n, s2),
    decreases a, 1nat,
{
    assert forall|i: int| 0 <= i < a.len() implies expr_corresponds(#[trigger] a[i], n[i], s2) by {
        lemma_expr_extends(a[i], n[i], s1, s2);
    }
}

/// Table fields resolve alike against every extension of a table
pub proof fn lemma_fields_extends<'a>(
    a: Seq<ast::Field<'a>>,
    n: Seq<nt::Field>,
    s1: Seq<Seq<u8>>,
    s2: Seq<Seq<u8>>,
)
    requires
        fields_correspond(a, n, s1),
        extends(s1, s2),
    ensures
        fields_correspond(a, n, s2),
    decreases a, 1nat,
{
    assert forall|i: int| 0 <= i < a.len() implies match #[trigger] a[i] {
        ast::Field::Index { index, expr } => n[i] matches nt::Field::Index { index: x, expr: y }
            && expr_corresponds(index, x, s2) && expr_corresponds(expr, y, s2),
        ast::Field::Assign { name, expr } => n[i] matches nt::Field::Assign { name: id, expr: y }
            && names_text(s2, id, name.value@) && expr_corresponds(expr, y, s2),
        ast::Field::Exp { expr } => n[i] matches nt::Field::Exp { expr: y } && expr_corresponds(
            expr,
            y,
            s2,
        ),
    } by {
        match a[i] {
            ast::Field::Index { index, expr } => {
                lemma_expr_extends(index, n[i]->Index_index, s1, s2);
                lemma_expr_extends(expr, n[i]->Index_expr, s1, s2);
            },
            ast::Field::Assign { expr, .. } => {
                lemma_expr_extends(expr, n[i]->Assign_expr, s1, s2);
            },
            ast::Field::Exp { expr } => {
                lemma_expr_extends(expr, n[i]->Exp_expr, s1, s2);
            },
        }
    }
}

/// A block resolves alike against every extension of a table
pub proof fn lemma_block_extends<'a>(
    a: ast::Block<'a>,
    n: nt::Block,
    s1: Seq<Seq<u8>>,
    s2: Seq<Seq<u8>>,
)
    requires
        block_corresponds(a, n, s1),
        extends(s1, s2),
    ensures
        block_corresponds(a, n, s2),
    decreases a, 2nat,
{
    lemma_stmts_extends(a.statements@, n.statements@, s1, s2);
    if let Some(r) = n.ret_stat {
        lemma_exprs_extends(a.ret_stat->0.exprs@, r.exprs@, s1, s2);
    }
}

/// Statements resolve alike against every extension of a table
pub proof fn lemma_stmts_extends<'a>(
    a: Seq<ast::Statement<'a>>,
    n: Seq<nt::Statement>,
    s1: Seq<Seq<u8>>,
    s2: Seq<Seq<u8>>,
)
    requires
        stmts_correspond(a, n, s1),
        extends(s1, s2),
    ensures
        stmts_correspond(a, n, s2),
    decreases a, 3nat,
{
    assert forall|i: int| 0 <= i < a.len() implies emits(
        #[trigger] a[i],
        n.subrange(total_len(a.take(i)), total_len(a.take(i)) + emitted_len(a[i])),
        s2,
    ) by {
        lemma_emits_extends(
            a[i],
            n.subrange(total_len(a.take(i)), total_len(a.take(i)) + emitted_len(a[i])),
            s1,
            s2,
        );
    }
}

/// What a statement emits resolves alike against every extension of a table
pub proof fn lemma_emits_extends<'a>(
    s: ast::Statement<'a>,
    seg: Seq<nt::Statement>,
    s1: Seq<Seq<u8>>,
    s2: Seq<Seq<u8>>,
)
    requires
        emits(s, seg, s1),
        extends(s1, s2),
    ensures
        emits(s, seg, s2),
    decreases s, 1nat,
{
    match s {
        ast::Statement::Declare { vis: ast::Visibility::Local, names, exprs } => {
            if exprs@.len() > 0 {
                let k = names.names@.len() as int;
                lemma_exprs_extends(exprs@, seg[k]->Assign_exps@, s1, s2);
            }
        },
        ast::Statement::Declare { vis: ast::Visibility::Global, exprs, .. } => {
            if exprs@.len() > 0 {
                lemma_exprs_extends(exprs@, seg[0]->Assign_exps@, s1, s2);
            }
        },
        ast::Statement::GlobalCollective { .. } => {},
        _ => {
            lemma_resolves_extends(s, seg[0], s1, s2);
        },
    }
}

/// A statement resolves alike against every extension of a table
pub proof fn lemma_resolves_extends<'a>(
    s: ast::Statement<'a>,
    t: nt::Statement,
    s1: Seq<Seq<u8>>,
    s2: Seq<Seq<u8>>,
)
    requires
        resolves_to(s, t, s1),
        extends(s1, s2),
    ensures
        resolves_to(s, t, s2),
    decreases s, 0nat,
{
    match s {
        ast::Statement::Assign { vars, exps } => {
            let v = t->Assign_vars;
            assert forall|i: int| 0 <= i < vars@.len() implies var_corresponds(
                #[trigger] vars@[i],
                v@[i],
                s2,
            ) by {
                lemma_var_extends(vars@[i], v@[i], s1, s2);
            }
            lemma_exprs_extends(exps@, t->Assign_exps@, s1, s2);
        },
        ast::Statement::Call(c) => {
            lemma_call_extends(c, t->Call_0, s1, s2);
        },
        ast::Statement::Block(block) => {
            lemma_block_extends(block, t->Block_0, s1, s2);
        },
        ast::Statement::While { expr, block } => {
            lemma_expr_extends(expr, t->While_expr, s1, s2);
            lemma_block_extends(block, t->While_block, s1, s2);
        },
        ast::Statement::Repeat { block, expr } => {
            lemma_block_extends(block, t->Repeat_block, s1, s2);
            lemma_expr_extends(expr, t->Repeat_expr, s1, s2);
        },
        ast::Statement::If { expr, block, elseif, else_block } => {
            lemma_expr_extends(expr, t->If_expr, s1, s2);
            lemma_block_extends(block, t->If_block, s1, s2);
            let e = t->If_elseif;
            assert forall|i: int| 0 <= i < e@.len() implies expr_corresponds(
                (#[trigger] elseif@[i]).0,
                e@[i].0,
                s2,
            ) && block_corresponds(elseif@[i].1, e@[i].1, s2) by {
                lemma_expr_extends(elseif@[i].0, e@[i].0, s1, s2);
                lemma_block_extends(elseif@[i].1, e@[i].1, s1, s2);
            }
            if let Some(y) = else_block {
                lemma_block_extends(y, t->If_else_block->0, s1, s2);
            }
        },
        ast::Statement::For { initial, limit, step, block, .. } => {
            lemma_expr_extends(initial, t->For_initial, s1, s2);
            lemma_expr_extends(limit, t->For_limit, s1, s2);
            if let Some(x) = step {
                lemma_expr_extends(x, t->For_step->0, s1, s2);
            }
            lemma_block_extends(block, t->For_block, s1, s2);
        },
        ast::Statement::ForEach { exprs, block, .. } => {
            lemma_exprs_extends(exprs@, t->ForEach_exprs@, s1, s2);
            lemma_block_extends(block, t->ForEach_block, s1, s2);
        },
        ast::Statement::Function { body, .. } => {
            lemma_block_extends(body.body, t->Function_body.body, s1, s2);
        },
        _ => {},
    }
}

/// Whether the error `e` is one that the state `r` explains: the string or
/// variable table cannot number another entry, or scopes or functions are
/// nested as deep as can be counted
pub open spec fn table_full<'a>(r: Resolver<'a>, e: ResolveError<'a>) -> bool {
    match e {
        ResolveError::TooManyStrings => r.strings().len() > u32::MAX,
        ResolveError::TooManyVariables => r.variables().len() > u32::MAX,
        ResolveError::TooDeep => r.depth() == usize::MAX || r.func_depth() == usize::MAX,
        _ => false,
    }
}

/// Whether a path function name starts at the variable `start`, with the
/// string ids `first` before its further names, as the name with the UTF-8
/// text `text` resolves: at its local binding, or at the `_ENV` binding with
/// the name's own id first
pub open spec fn start_resolves(
    start: nt::VariableId,
    first: Seq<nt::StringId>,
    scope: Seq<Variable>,
    vars: Seq<nt::Local>,
    strings: Seq<Seq<u8>>,
    fd: usize,
    text: Seq<u8>,
) -> bool {
    let s = id_of(strings, text);
    let env = id_of(strings, environment_name());
    let n = scope.len() as int;
    match innermost(scope, vars, s, fd, n) {
        Some(id) => start == id && first.len() == 0,
        None => first == seq![s] && Some(start) == innermost(scope, vars, env, fd, n),
    }
}

/// Whether, for an error of assignment to a `<const>` variable, the state
/// `r` explains it: the assigned name resolves there to a `<const>` local
pub open spec fn const_target<'a>(r: Resolver<'a>, e: ResolveError<'a>) -> bool {
    e matches ResolveError::AssignToConst(t) ==> names_const(
        r.scope(),
        r.variables(),
        r.strings(),
        r.func_depth(),
        vstd::utf8::encode_utf8(t.value@),
    )
}

/// Whether the attribute `a` is unknown and named by the token `t`
pub open spec fn unknown_attr<'a>(a: Option<ast::Attribute<'a>>, t: Token<'a>) -> bool {
    a matches Some(x) && x.name == t && !attr_known(a)
}

/// Whether the error `e` is one that a local declaration of `names` gives:
/// `<close>` for several names, or an attribute that is not known
pub open spec fn local_decl_error<'a>(names: ast::AttributeNameList<'a>, e: ResolveError<'a>) -> bool {
    ||| e == ResolveError::CloseOnMany && attr_is_close(names.attrib) && names.names@.len() > 1
    ||| e matches ResolveError::UnknownAttribute(t) && (unknown_attr(names.attrib, t) || exists|
        i: int,
    | 0 <= i < names.names@.len() && unknown_attr((#[trigger] names.names@[i]).1, t))
}

/// Whether the error `e` is one that a global declaration of `names` gives:
/// `<close>`, or an attribute that is not known
pub open spec fn global_decl_error<'a>(names: ast::AttributeNameList<'a>, e: ResolveError<'a>) -> bool {
    ||| e == ResolveError::GlobalClose && (attr_is_close(names.attrib) || exists|i: int|
        0 <= i < names.names@.len() && attr_is_close((#[trigger] names.names@[i]).1))
    ||| e matches ResolveError::UnknownAttribute(t) && (unknown_attr(names.attrib, t) || exists|
        i: int,
    | 0 <= i < names.names@.len() && unknown_attr((#[trigger] names.names@[i]).1, t))
}

/// Whether the error `e` is one that a function statement named `name`,
/// with the visibility `vis`, gives by its name alone
pub open spec fn function_name_error<'a>(
    name: ast::FunctionName<'a>,
    vis: Option<ast::Visibility>,
    e: ResolveError<'a>,
) -> bool {
    ||| vis == Some(ast::Visibility::Local) && name.method is Some && e
        == ResolveError::LocalFunctionMethod
    ||| vis == Some(ast::Visibility::Local) && name.method is None && name.names@.len() != 1 && e
        == ResolveError::LocalFunctionPath
    ||| vis == Some(ast::Visibility::Global) && name.method is Some && e
        == ResolveError::GlobalFunctionMethod
    ||| vis == Some(ast::Visibility::Global) && name.method is None && name.names@.len() != 1
        && e == ResolveError::GlobalFunctionPath
    ||| vis is None && name.names@.len() == 0 && e == ResolveError::NoFunctionName
}

/// Whether the statement `s` itself, apart from what it holds, gives the
/// error `e`: a label, `break` or `goto`; an assignment to a name that is a
/// `<const>` local; a function name or declaration attributes that are not
/// allowed
pub open spec fn statement_error<'a>(s: ast::Statement<'a>, e: ResolveError<'a>) -> bool {
    match s {
        ast::Statement::Label(_) => e == ResolveError::Unsupported,
        ast::Statement::Break => e == ResolveError::Unsupported,
        ast::Statement::Goto(_) => e == ResolveError::Unsupported,
        ast::Statement::Assign { vars, .. } => e matches ResolveError::AssignToConst(t) && exists|
            i: int,
        | 0 <= i < vars@.len() && #[trigger] vars@[i] == ast::Var::Name(t),
        ast::Statement::Function { name, vis, .. } => function_name_error(name, vis, e),
        ast::Statement::Declare { vis: ast::Visibility::Local, names, .. } => local_decl_error(
            names,
            e,
        ),
        ast::Statement::Declare { vis: ast::Visibility::Global, names, .. } => global_decl_error(
            names,
            e,
        ),
        _ => false,
    }
}

/// Whether the expression `a` itself gives the error `e`: a short string
/// literal with an invalid escape sequence, or a hexadecimal integer literal
/// with a character that is not a digit
pub open spec fn expression_error<'a>(a: ast::Expression<'a>, e: ResolveError<'a>) -> bool {
    match a {
        ast::Expression::String(tok) => {
            let t = tok.value@;
            e matches ResolveError::Escape(x) && !(t.len() > 0 && t[0] == '[') && unescape(
                literal_contents(t),
            ) == Err::<Seq<u8>, EscapeError>(x)
        },
        ast::Expression::Number(tok) => {
            let t = tok.value@;
            e == ResolveError::InvalidHexDigit && !is_float_literal(t) && is_hex_literal(t)
                && !all_hex_digits(t.skip(2))
        },
        _ => false,
    }
}

/// Whether the expression `a`, or an expression or statement in it, gives
/// the error `e`
pub open spec fn expr_fails<'a>(a: ast::Expression<'a>, e: ResolveError<'a>) -> bool
    decreases a, 0nat,
{
    ||| expression_error(a, e)
    ||| match a {
        ast::Expression::Function(f) => block_fails(f.body, e),
        ast::Expression::Prefix(p) => prefix_fails(p, e),
        ast::Expression::Table(t) => fields_fail(t.fields@, e),
        ast::Expression::Binary { left, right, .. } => expr_fails(*left, e) || expr_fails(
            *right,
            e,
        ),
        ast::Expression::Unary { expr, .. } => expr_fails(*expr, e),
        _ => false,
    }
}

/// Whether something in the prefix expression `a` gives the error `e`
pub open spec fn prefix_fails<'a>(a: ast::PrefixExpression<'a>, e: ResolveError<'a>) -> bool
    decreases a, 0nat,
{
    match a {
        ast::PrefixExpression::Var(v) => var_fails(*v, e),
        ast::PrefixExpression::Call(c) => call_fails(c, e),
        ast::PrefixExpression::Expr(x) => expr_fails(*x, e),
    }
}

/// Whether something in the variable `a` gives the error `e`
pub open spec fn var_fails<'a>(a: ast::Var<'a>, e: ResolveError<'a>) -> bool
    decreases a, 0nat,
{
    match a {
        ast::Var::Name(_) => false,
        ast::Var::Index { first, index } => prefix_fails(first, e) || expr_fails(index, e),
        ast::Var::Dot { first, .. } => prefix_fails(first, e),
    }
}

/// Whether something in the call `a` gives the error `e`
pub open spec fn call_fails<'a>(a: ast::FunctionCall<'a>, e: ResolveError<'a>) -> bool
    decreases a, 0nat,
{
    ||| prefix_fails(*a.receiver, e)
    ||| args_fail(a.args, e)
}

/// Whether something in the call arguments `a` gives the error `e`
pub open spec fn args_fail<'a>(a: ast::FunctionArgs<'a>, e: ResolveError<'a>) -> bool
    decreases a, 0nat,
{
    match a {
        ast::FunctionArgs::Call { exprs } => exprs_fail(exprs@, e),
        ast::FunctionArgs::Table { table } => fields_fail(table.fields@, e),
        ast::FunctionArgs::String { .. } => false,
    }
}

/// Whether something in one of the expressions `a` gives the error `e`
pub open spec fn exprs_fail<'a>(a: Seq<ast::Expression<'a>>, e: ResolveError<'a>) -> bool
    decreases a, 1nat,
{
    exists|i: int| 0 <= i < a.len() && expr_fails(#[trigger] a[i], e)
}

/// Whether something in one of the table fields `a` gives the error `e`
pub open spec fn fields_fail<'a>(a: Seq<ast::Field<'a>>, e: ResolveError<'a>) -> bool
    decreases a, 1nat,
{
    exists|i: int| 0 <= i < a.len() && field_fails(#[trigger] a[i], e)
}

/// Whether something in the table field `a` gives the error `e`
pub open spec fn field_fails<'a>(a: ast::Field<'a>, e: ResolveError<'a>) -> bool
    decreases a, 0nat,
{
    match a {
        ast::Field::Index { index, expr } => expr_fails(index, e) || expr_fails(expr, e),
        ast::Field::Assign { expr, .. } => expr_fails(expr, e),
        ast::Field::Exp { expr } => expr_fails(expr, e),
    }
}

/// Whether something in the block `b` gives the error `e`
pub open spec fn block_fails<'a>(b: ast::Block<'a>, e: ResolveError<'a>) -> bool
    decreases b, 2nat,
{
    ||| stmts_fail(b.statements@, e)
    ||| b.ret_stat matches Some(r) && exprs_fail(r.exprs@, e)
}

/// Whether something in one of the statements `a` gives the error `e`
pub open spec fn stmts_fail<'a>(a: Seq<ast::Statement<'a>>, e: ResolveError<'a>) -> bool
    decreases a, 3nat,
{
    exists|i: int| 0 <= i < a.len() && stmt_fails(#[trigger] a[i], e)
}

/// Whether the statement `s`, or something in it, gives the error `e`
pub open spec fn stmt_fails<'a>(s: ast::Statement<'a>, e: ResolveError<'a>) -> bool
    decreases s, 1nat,
{
    ||| statement_error(s, e)
    ||| match s {
        ast::Statement::Assign { vars, exps } => (exists|i: int|
            0 <= i < vars@.len() && var_fails(#[trigger] vars@[i], e)) || exprs_fail(exps@, e),
        ast::Statement::Call(c) => call_fails(c, e),
        ast::Statement::Block(b) => block_fails(b, e),
        ast::Statement::While { expr, block } => expr_fails(expr, e) || block_fails(block, e),
        ast::Statement::Repeat { block, expr } => block_fails(block, e) || expr_fails(expr, e),
        ast::Statement::If { expr, block, elseif, else_block } => {
            ||| expr_fails(expr, e)
            ||| block_fails(block, e)
            ||| (exists|i: int|
                0 <= i < elseif@.len() && (expr_fails((#[trigger] elseif@[i]).0, e)
                    || block_fails(elseif@[i].1, e)))
            ||| else_block matches Some(b) && block_fails(b, e)
        },
        ast::Statement::For { initial, limit, step, block, .. } => {
            ||| expr_fails(initial, e)
            ||| expr_fails(limit, e)
            ||| step matches Some(x) && expr_fails(x, e)
            ||| block_fails(block, e)
        },
        ast::Statement::ForEach { exprs, block, .. } => exprs_fail(exprs@, e) || block_fails(
            block,
            e,
        ),
        ast::Statement::Function { body, .. } => block_fails(body.body, e),
        ast::Statement::Declare { exprs, .. } => exprs_fail(exprs@, e),
        _ => false,
    }
}

/// Whether the resolved expression `n` binds every name of the expression
/// `a` as resolution does in the scope `sc` from function depth `fd`, against
/// the variables `vs` and strings `st`: each name and `...` to its innermost
/// binding, or through `_ENV` where it has none. The bodies of function
/// expressions, which are resolved in scopes of their own, are not covered.
pub open spec fn expr_binds<'a>(
    a: ast::Expression<'a>,
    n: nt::Expression,
    sc: Seq<Variable>,
    vs: Seq<nt::Local>,
    st: Seq<Seq<u8>>,
    fd: usize,
) -> bool
    decreases a, 0nat,
{
    match a {
        ast::Expression::DotDotDot => n matches nt::Expression::Prefix(
            nt::PrefixExpression::Var(v),
        ) && name_resolves_to(*v, sc, vs, st, fd, dots_name()) && st.contains(dots_name()),
        ast::Expression::Prefix(p) => n matches nt::Expression::Prefix(q) && prefix_binds(
            p,
            q,
            sc,
            vs,
            st,
            fd,
        ),
        ast::Expression::Table(t) => n matches nt::Expression::Table(u) && fields_bind(
            t.fields@,
            u.fields@,
            sc,
            vs,
            st,
            fd,
        ),
        ast::Expression::Binary { left, right, .. } => n matches nt::Expression::Binary {
            left: l,
            right: r,
            ..
        } && expr_binds(*left, *l, sc, vs, st, fd) && expr_binds(*right, *r, sc, vs, st, fd),
        ast::Expression::Unary { expr, .. } => n matches nt::Expression::Unary { expr: e, .. }
            && expr_binds(*expr, *e, sc, vs, st, fd),
        ast::Expression::Function(f) => n matches nt::Expression::Function(g) && nested_binds(
            f.body,
            g.body,
            sc,
            vs,
            st,
            (fd + 1) as usize,
        ),
        _ => true,
    }
}

/// Whether the resolved prefix expression `n` binds the names of `a` (see
/// `expr_binds`)
pub open spec fn prefix_binds<'a>(
    a: ast::PrefixExpression<'a>,
    n: nt::PrefixExpression,
    sc: Seq<Variable>,
    vs: Seq<nt::Local>,
    st: Seq<Seq<u8>>,
    fd: usize,
) -> bool
    decreases a, 0nat,
{
    match a {
        ast::PrefixExpression::Var(v) => n matches nt::PrefixExpression::Var(w) && var_binds(
            *v,
            *w,
            sc,
            vs,
            st,
            fd,
        ),
        ast::PrefixExpression::Call(c) => n matches nt::PrefixExpression::Call(d) && call_binds(
            c,
            d,
            sc,
            vs,
            st,
            fd,
        ),
        ast::PrefixExpression::Expr(e) => n matches nt::PrefixExpression::Expr(f) && expr_binds(
            *e,
            *f,
            sc,
            vs,
            st,
            fd,
        ),
    }
}

/// Whether the resolved variable `n` binds the names of `a` (see
/// `expr_binds`)
pub open spec fn var_binds<'a>(
    a: ast::Var<'a>,
    n: nt::Var,
    sc: Seq<Variable>,
    vs: Seq<nt::Local>,
    st: Seq<Seq<u8>>,
    fd: usize,
) -> bool
    decreases a, 0nat,
{
    match a {
        ast::Var::Name(t) => st.contains(vstd::utf8::encode_utf8(t.value@)) && name_resolves_to(
            n,
            sc,
            vs,
            st,
            fd,
            vstd::utf8::encode_utf8(t.value@),
        ),
        ast::Var::Index { first, index } => n matches nt::Var::Index { first: f, index: i }
            && prefix_binds(first, f, sc, vs, st, fd) && expr_binds(index, i, sc, vs, st, fd),
        ast::Var::Dot { first, .. } => n matches nt::Var::Dot { first: f, .. } && prefix_binds(
            first,
            f,
            sc,
            vs,
            st,
            fd,
        ),
    }
}

/// Whether the resolved call `n` binds the names of `a` (see `expr_binds`)
pub open spec fn call_binds<'a>(
    a: ast::FunctionCall<'a>,
    n: nt::FunctionCall,
    sc: Seq<Variable>,
    vs: Seq<nt::Local>,
    st: Seq<Seq<u8>>,
    fd: usize,
) -> bool
    decreases a, 0nat,
{
    &&& prefix_binds(*a.receiver, *n.receiver, sc, vs, st, fd)
    &&& match a.args {
        ast::FunctionArgs::Call { exprs } => n.args matches nt::FunctionArgs::Call { exprs: e }
            && exprs_bind(exprs@, e@, sc, vs, st, fd),
        ast::FunctionArgs::Table { table } => n.args matches nt::FunctionArgs::Table { table: t }
            && fields_bind(table.fields@, t.fields@, sc, vs, st, fd),
        ast::FunctionArgs::String { .. } => true,
    }
}

/// Whether the resolved expressions `n` bind, in order, the names of the
/// expressions `a` (see `expr_binds`)
pub open spec fn exprs_bind<'a>(
    a: Seq<ast::Expression<'a>>,
    n: Seq<nt::Expression>,
    sc: Seq<Variable>,
    vs: Seq<nt::Local>,
    st: Seq<Seq<u8>>,
    fd: usize,
) -> bool
    decreases a, 1nat,
{
    &&& n.len() == a.len()
    &&& forall|i: int| 0 <= i < a.len() ==> expr_binds(#[trigger] a[i], n[i], sc, vs, st, fd)
}

/// Whether the resolved fields `n` bind, in order, the names of the fields
/// `a` (see `expr_binds`)
pub open spec fn fields_bind<'a>(
    a: Seq<ast::Field<'a>>,
    n: Seq<nt::Field>,
    sc: Seq<Variable>,
    vs: Seq<nt::Local>,
    st: Seq<Seq<u8>>,
    fd: usize,
) -> bool
    decreases a, 1nat,
{
    &&& n.len() == a.len()
    &&& forall|i: int| 0 <= i < a.len() ==> field_binds(#[trigger] a[i], n[i], sc, vs, st, fd)
}

/// Whether the resolved field `n` binds the names of the field `a` (see
/// `expr_binds`)
pub open spec fn field_binds<'a>(
    a: ast::Field<'a>,
    n: nt::Field,
    sc: Seq<Variable>,
    vs: Seq<nt::Local>,
    st: Seq<Seq<u8>>,
    fd: usize,
) -> bool
    decreases a, 0nat,
{
    match a {
        ast::Field::Index { index, expr } => n matches nt::Field::Index { index: x, expr: y }
            && expr_binds(index, x, sc, vs, st, fd) && expr_binds(expr, y, sc, vs, st, fd),
        ast::Field::Assign { expr, .. } => n matches nt::Field::Assign { expr: y, .. }
            && expr_binds(expr, y, sc, vs, st, fd),
        ast::Field::Exp { expr } => n matches nt::Field::Exp { expr: y } && expr_binds(
            expr,
            y,
            sc,
            vs,
            st,
            fd,
        ),
    }
}

/// Whether the resolved statement `t` binds the names in the expressions
/// that the statement `s` resolves in the scope `sc` where it stands (see
/// `expr_binds`): the targets and values of an assignment, a call, the
/// condition of a `while` or `if` and of each `elseif`, the bounds of a
/// numeric `for` and the values of a for-each loop
pub open spec fn stmt_binds<'a>(
    s: ast::Statement<'a>,
    t: nt::Statement,
    sc: Seq<Variable>,
    vs: Seq<nt::Local>,
    st: Seq<Seq<u8>>,
    fd: usize,
) -> bool
    decreases s, 0nat,
{
    match s {
        ast::Statement::Assign { vars, exps } => t matches nt::Statement::Assign {
            vars: v,
            exps: e,
            ..
        } && v@.len() == vars@.len() && (forall|i: int|
            0 <= i < vars@.len() ==> var_binds(#[trigger] vars@[i], v@[i], sc, vs, st, fd))
            && exprs_bind(exps@, e@, sc, vs, st, fd),
        ast::Statement::Call(c) => t matches nt::Statement::Call(d) && call_binds(
            c,
            d,
            sc,
            vs,
            st,
            fd,
        ),
        ast::Statement::Block(b) => t matches nt::Statement::Block(nb) && nested_binds(
            b,
            nb,
            sc,
            vs,
            st,
            fd,
        ),
        ast::Statement::While { expr, block } => t matches nt::Statement::While {
            expr: e,
            block: nb,
        } && expr_binds(expr, e, sc, vs, st, fd) && nested_binds(block, nb, sc, vs, st, fd),
        ast::Statement::If { expr, block, elseif, else_block } => t matches nt::Statement::If {
            expr: x,
            block: nb,
            elseif: e,
            else_block: eb,
        } && expr_binds(expr, x, sc, vs, st, fd) && e@.len() == elseif@.len() && (forall|i: int|
            0 <= i < e@.len() ==> expr_binds((#[trigger] elseif@[i]).0, e@[i].0, sc, vs, st, fd))
            && nested_binds(block, nb, sc, vs, st, fd) && (forall|i: int|
            0 <= i < e@.len() ==> nested_binds((#[trigger] elseif@[i]).1, e@[i].1, sc, vs, st, fd))
            && match else_block {
            Some(y) => eb matches Some(z) && nested_binds(y, z, sc, vs, st, fd),
            None => true,
        },
        ast::Statement::For { name, initial, limit, step, block } => t matches nt::Statement::For {
            name: v,
            initial: i,
            limit: l,
            step: p,
            block: nb,
        } && const_loop_var(v, name, vs, st) && expr_binds(initial, i, sc, vs, st, fd) && expr_binds(limit, l, sc, vs, st, fd)
            && match step {
            Some(x) => p matches Some(y) && expr_binds(x, y, sc, vs, st, fd),
            None => true,
        } && nested_binds(block, nb, sc, vs, st, fd),
        ast::Statement::ForEach { names, exprs, block } => t matches nt::Statement::ForEach {
            names: v,
            exprs: e,
            block: nb,
        } && loop_vars_declared(v@, names@, vs, st) && exprs_bind(exprs@, e@, sc, vs, st, fd) && nested_binds(block, nb, sc, vs, st, fd),
        ast::Statement::Function { body, .. } => t matches nt::Statement::Function { body: f, .. }
            && nested_binds(body.body, f.body, sc, vs, st, (fd + 1) as usize),
        ast::Statement::Repeat { block, expr } => t matches nt::Statement::Repeat {
            block: nb,
            expr: e,
            ..
        } && exists|d: usize, n: nat, scs: Seq<Seq<Variable>>|
            #[trigger] scopes_within(sc, scs, d, n, vs) && block_binds_with(block, nb, scs, sc, d, n, vs, st, fd)
                && expr_binds(expr, e, scs[block.statements@.len() as int], vs, st, fd),
        _ => true,
    }
}

/// Whether the variable `v` is the loop variable of a numeric `for` written
/// by the token `tok`: a `<const>` local, not `<close>`, named by the token
/// and defined on its line
pub open spec fn const_loop_var<'a>(
    v: nt::VariableId,
    tok: Token<'a>,
    vs: Seq<nt::Local>,
    st: Seq<Seq<u8>>,
) -> bool {
    loop_var_declared(v, tok, true, vs, st)
}

/// Whether the loops variables `v` of a `for in` are those written by the
/// tokens `toks`, in order; the first is `<const>`, the others are not
pub open spec fn loop_vars_declared<'a>(
    v: Seq<nt::VariableId>,
    toks: Seq<Token<'a>>,
    vs: Seq<nt::Local>,
    st: Seq<Seq<u8>>,
) -> bool {
    &&& v.len() == toks.len()
    &&& forall|k: int| 0 <= k < v.len() ==> loop_var_declared(#[trigger] v[k], toks[k], k == 0, vs, st)
}

/// Whether the variable `v` is a loop variable written by the token `tok`:
/// a local, `<const>` just where `c` is, not `<close>`, named by the token
/// and defined on its line
pub open spec fn loop_var_declared<'a>(
    v: nt::VariableId,
    tok: Token<'a>,
    c: bool,
    vs: Seq<nt::Local>,
    st: Seq<Seq<u8>>,
) -> bool {
    &&& v.0 < vs.len()
    &&& vs[v.0 as int].attr_const == c
    &&& !vs[v.0 as int].attr_close
    &&& vs[v.0 as int].line == Some(tok.line)
    &&& vs[v.0 as int].name.0 < st.len()
    &&& st[vs[v.0 as int].name.0 as int] == vstd::utf8::encode_utf8(tok.value@)
}

/// Whether, for values `exprs`, the last of the resolved statements `out`
/// assigns them bound in the scope `sc` (see `expr_binds`): the scope before
/// the declaration, where the names it declares are not yet bound
pub open spec fn values_bind<'a>(
    exprs: Seq<ast::Expression<'a>>,
    out: Seq<nt::Statement>,
    sc: Seq<Variable>,
    vs: Seq<nt::Local>,
    st: Seq<Seq<u8>>,
    fd: usize,
) -> bool
    decreases exprs, 2nat,
{
    exprs.len() > 0 ==> (out.last() matches nt::Statement::Assign { exps, .. } && exprs_bind(
        exprs,
        exps@,
        sc,
        vs,
        st,
        fd,
    ))
}

/// Whether the resolved statements `seg` that the statement `s` resolves to
/// bind its names in the scope `sc` (see `stmt_binds` and `values_bind`)
pub open spec fn emitted_binds<'a>(
    s: ast::Statement<'a>,
    seg: Seq<nt::Statement>,
    sc: Seq<Variable>,
    vs: Seq<nt::Local>,
    st: Seq<Seq<u8>>,
    fd: usize,
) -> bool
    decreases s, 1nat,
{
    match s {
        ast::Statement::Declare { exprs, .. } => values_bind(exprs@, seg, sc, vs, st, fd),
        ast::Statement::GlobalCollective { .. } => true,
        _ => seg.len() >= 1 && stmt_binds(s, seg.last(), sc, vs, st, fd),
    }
}

/// Whether the resolved block `b` binds the names of the block `block`, with
/// `scs` the scopes in which its statements, and then its return, stand: each
/// is the scope `sc0` where the block is entered followed by bindings made in
/// the block, at depth `d` or deeper, of variables numbered `n` or more
pub open spec fn block_binds_with<'a>(
    block: ast::Block<'a>,
    b: nt::Block,
    scs: Seq<Seq<Variable>>,
    sc0: Seq<Variable>,
    d: usize,
    n: nat,
    vs: Seq<nt::Local>,
    st: Seq<Seq<u8>>,
    fd: usize,
) -> bool
    decreases block, 0nat,
{
    let a = block.statements@;
    &&& scs.len() == a.len() + 1
    &&& forall|j: int| 0 <= j < scs.len() ==> scope_pushed(sc0, #[trigger] scs[j], d, n)
    &&& forall|j: int, k: int|
        0 <= j < scs.len() && 0 <= k < scs[j].len() ==> variable_id(#[trigger] scs[j][k]).0 < vs.len()
    &&& forall|j: int|
        0 <= j < a.len() ==> emitted_binds(
            #[trigger] a[j],
            b.statements@.subrange(total_len(a.take(j)), total_len(a.take(j)) + emitted_len(a[j])),
            scs[j],
            vs,
            st,
            fd,
        )
    &&& (b.ret_stat matches Some(r) ==> block.ret_stat matches Some(q) && exprs_bind(
        q.exprs@,
        r.exprs@,
        scs[a.len() as int],
        vs,
        st,
        fd,
    ))
}

/// Whether the resolved block `b` binds the names of the block `block` in
/// scopes made of the scope `sc0` where it is entered and the bindings the
/// block makes (see `block_binds_with`)
pub open spec fn block_binds<'a>(
    block: ast::Block<'a>,
    b: nt::Block,
    sc0: Seq<Variable>,
    d: usize,
    n: nat,
    vs: Seq<nt::Local>,
    st: Seq<Seq<u8>>,
    fd: usize,
) -> bool {
    exists|scs: Seq<Seq<Variable>>|
        #[trigger] scopes_within(sc0, scs, d, n, vs) && block_binds_with(block, b, scs, sc0, d, n, vs, st, fd)
}

/// Whether each of the scopes `scs` is the scope `sc0` followed by bindings
/// at depth `d` or deeper, of variables numbered from `n` up to the size of
/// the variable table `vs`
pub open spec fn scopes_within(
    sc0: Seq<Variable>,
    scs: Seq<Seq<Variable>>,
    d: usize,
    n: nat,
    vs: Seq<nt::Local>,
) -> bool {
    &&& forall|j: int| 0 <= j < scs.len() ==> scope_pushed(sc0, #[trigger] scs[j], d, n)
    &&& forall|j: int, k: int|
        0 <= j < scs.len() && 0 <= k < scs[j].len() ==> variable_id(#[trigger] scs[j][k]).0 < vs.len()
}

/// Whether the resolved block `b`, nested in a statement that stands in the
/// scope `sc`, binds the names of the block `block` (see `block_binds`), for
/// some depth and first variable number of the bindings it makes
pub open spec fn nested_binds<'a>(
    block: ast::Block<'a>,
    b: nt::Block,
    sc: Seq<Variable>,
    vs: Seq<nt::Local>,
    st: Seq<Seq<u8>>,
    fd: usize,
) -> bool
    decreases block, 1nat,
{
    exists|d: usize, n: nat, scs: Seq<Seq<Variable>>|
        #[trigger] scopes_within(sc, scs, d, n, vs) && block_binds_with(block, b, scs, sc, d, n, vs, st, fd)
}

/// A block bound in the scope where it is entered is bound as a nested block
pub proof fn lemma_nested_binds<'a>(
    block: ast::Block<'a>,
    b: nt::Block,
    sc: Seq<Variable>,
    d: usize,
    n: nat,
    vs: Seq<nt::Local>,
    st: Seq<Seq<u8>>,
    fd: usize,
)
    requires
        block_binds(block, b, sc, d, n, vs, st, fd),
    ensures
        nested_binds(block, b, sc, vs, st, fd),
{
    let scs = choose|scs: Seq<Seq<Variable>>|
        #[trigger] scopes_within(sc, scs, d, n, vs) && block_binds_with(block, b, scs, sc, d, n, vs, st, fd);
    assert(scopes_within(sc, scs, d, n, vs));
}

/// In a resolved block, each numeric `for` among its statements resolves to
/// a `for` whose loop variable is a `<const>` local, not `<close>`, named by
/// the loop's token and defined on its line: assigning to it is refused.
pub proof fn law_for_variable_is_const<'a>(
    block: ast::Block<'a>,
    b: nt::Block,
    sc0: Seq<Variable>,
    d: usize,
    n: nat,
    vs: Seq<nt::Local>,
    st: Seq<Seq<u8>>,
    fd: usize,
    j: int,
)
    requires
        block_corresponds(block, b, st),
        block_binds(block, b, sc0, d, n, vs, st, fd),
        0 <= j < block.statements@.len(),
        block.statements@[j] is For,
    ensures
        exists|k: int|
            0 <= k < b.statements@.len() && (#[trigger] b.statements@[k] matches nt::Statement::For {
                name: v,
                ..
            } && const_loop_var(v, block.statements@[j]->For_name, vs, st)),
{
    let a = block.statements@;
    let scs = choose|scs: Seq<Seq<Variable>>|
        #[trigger] scopes_within(sc0, scs, d, n, vs) && block_binds_with(block, b, scs, sc0, d, n, vs, st, fd);
    assert(block_binds_with(block, b, scs, sc0, d, n, vs, st, fd));
    let k = total_len(a.take(j));
    lemma_total_len_prefix(a, j, a.len() as int);
    assert(a.take(a.len() as int) =~= a);
    let seg = b.statements@.subrange(k, k + emitted_len(a[j]));
    assert(emitted_binds(a[j], seg, scs[j], vs, st, fd));
    assert(seg.last() == b.statements@[k]);
}

/// A block bound where it is entered is bound in any scope that the scope
/// where it is entered extends by bindings at depth `d` or deeper, of
/// variables numbered `n` or more
pub proof fn lemma_block_binds_widen<'a>(
    block: ast::Block<'a>,
    b: nt::Block,
    sc: Seq<Variable>,
    sc1: Seq<Variable>,
    d: usize,
    n: nat,
    d1: usize,
    n1: nat,
    vs: Seq<nt::Local>,
    st: Seq<Seq<u8>>,
    fd: usize,
)
    requires
        scope_pushed(sc, sc1, d, n),
        d <= d1,
        n <= n1,
        block_binds(block, b, sc1, d1, n1, vs, st, fd),
    ensures
        block_binds(block, b, sc, d, n, vs, st, fd),
{
    let scs = choose|scs: Seq<Seq<Variable>>|
        #[trigger] scopes_within(sc1, scs, d1, n1, vs) && block_binds_with(block, b, scs, sc1, d1, n1, vs, st, fd);
    assert forall|j: int| 0 <= j < scs.len() implies scope_pushed(sc, #[trigger] scs[j], d, n) by {
        assert(scope_pushed(sc1, scs[j], d1, n1));
        assert(scope_pushed(sc1, scs[j], d, n1));
        lemma_pushed_trans(sc, sc1, scs[j], d, n, n1);
    }
    assert(block_binds_with(block, b, scs, sc, d, n, vs, st, fd));
    assert(scopes_within(sc, scs, d, n, vs));
}

/// Run the name resolution pass over a parsed AST.
pub struct Resolver<'a> {
    ast: &'a ast::Block<'a>,
    string_table: Vec<Vec<u8>>,
    string_lookup: StringLookup,
    variable_table: Vec<nt::Local>,
    locals: Vec<Variable>,
    scope_depth: usize,
    function_depth: usize,
}

/// Name of the `_ENV` variable in lua source code
pub open spec fn environment_name() -> Seq<u8> {
    seq![0x5Fu8, 0x45u8, 0x4Eu8, 0x56u8]
}

/// The bytes of `_ENV`
pub fn environment() -> (v: Vec<u8>)
    ensures
        v@ == environment_name(),
{
    let v = vec![0x5Fu8, 0x45u8, 0x4Eu8, 0x56u8];
    assert(v@ =~= environment_name());
    v
}

pub open spec fn variable_depth(v: Variable) -> usize {
    match v {
        Variable::Var { depth, .. } => depth,
        Variable::Alias { depth, .. } => depth,
    }
}

pub open spec fn variable_id(v: Variable) -> nt::VariableId {
    match v {
        Variable::Var { id, .. } => id,
        Variable::Alias { id, .. } => id,
    }
}

/// Whether the scope entry `v` binds the string `s` when resolving from
/// within function depth `fd`.
pub open spec fn binds(v: Variable, vars: Seq<nt::Local>, s: nt::StringId, fd: usize) -> bool {
    match v {
        Variable::Var { id, func_depth, .. } => vars[id.0 as int].name == s && (func_depth is None
            || func_depth == Some(fd)),
        Variable::Alias { name, .. } => name == s,
    }
}

/// The variable that `s` resolves to among the first `n` scope entries: the
/// last of them that binds it.
pub open spec fn innermost(
    locals: Seq<Variable>,
    vars: Seq<nt::Local>,
    s: nt::StringId,
    fd: usize,
    n: int,
) -> Option<nt::VariableId>
    decreases n,
{
    if n <= 0 {
        None
    } else if binds(locals[n - 1], vars, s, fd) {
        Some(variable_id(locals[n - 1]))
    } else {
        innermost(locals, vars, s, fd, n - 1)
    }
}

/// If an entry below `n` binds `s`, a binding is found.
pub proof fn lemma_innermost_found(
    locals: Seq<Variable>,
    vars: Seq<nt::Local>,
    s: nt::StringId,
    fd: usize,
    n: int,
    j: int,
)
    requires
        0 <= j < n,
        binds(locals[j], vars, s, fd),
    ensures
        innermost(locals, vars, s, fd, n) is Some,
    decreases n,
{
    if !binds(locals[n - 1], vars, s, fd) {
        lemma_innermost_found(locals, vars, s, fd, n - 1, j);
    }
}

/// The `ScopeEnd` statements for leaving the scope entries `popped`, the
/// last entry first; aliases produce none.
pub open spec fn scope_ends(popped: Seq<Variable>) -> Seq<nt::VariableId>
    decreases popped.len(),
{
    if popped.len() == 0 {
        Seq::empty()
    } else {
        match popped.last() {
            Variable::Var { id, .. } => seq![id] + scope_ends(popped.drop_last()),
            Variable::Alias { .. } => scope_ends(popped.drop_last()),
        }
    }
}

/// The bytes of a string table
pub open spec fn table_strings(t: Seq<Vec<u8>>) -> Seq<Seq<u8>> {
    t.map_values(|v: Vec<u8>| v@)
}

/// The UTF-8 encoding of some characters
pub fn chars_to_utf8(s: &[char]) -> (v: Vec<u8>)
    ensures
        v@ == vstd::utf8::encode_utf8(s@),
{
    let mut v: Vec<u8> = Vec::new();
    let mut i: usize = 0;
    assert(s@.skip(0) =~= s@);
    assert(v@ + vstd::utf8::encode_utf8(s@) =~= vstd::utf8::encode_utf8(s@));
    while i < s.len()
        invariant
            i <= s.len(),
            v@ + vstd::utf8::encode_utf8(s@.skip(i as int)) == vstd::utf8::encode_utf8(s@),
        decreases s.len() - i,
    {
        proof {
            assert(s@.skip(i as int).drop_first() =~= s@.skip(i + 1));
            assert(s@.skip(i as int)[0] == s@[i as int]);
            reveal_with_fuel(vstd::utf8::encode_utf8, 2);
            assert(seq![s@[i as int]].drop_first() =~= Seq::<char>::empty());
            assert(vstd::utf8::encode_utf8(seq![s@[i as int]]) =~= vstd::utf8::encode_scalar(
                s@[i as int] as u32,
            ));
        }
        let ghost before = v@;
        push_utf8(&mut v, s[i]);
        proof {
            assert(v@ + vstd::utf8::encode_utf8(s@.skip(i + 1)) =~= before
                + vstd::utf8::encode_utf8(s@.skip(i as int)));
        }
        i = i + 1;
    }
    assert(s@.skip(i as int) =~= Seq::<char>::empty());
    assert(v@ + Seq::<u8>::empty() =~= v@);
    v
}

impl<'a> Resolver<'a> {
    /// The syntax tree being resolved
    pub closed spec fn syntax(&self) -> ast::Block<'a> {
        *self.ast
    }

    /// The strings interned so far, by id
    pub closed spec fn strings(&self) -> Seq<Seq<u8>> {
        table_strings(self.string_table@)
    }

    /// The variables defined so far, by id
    pub closed spec fn variables(&self) -> Seq<nt::Local> {
        self.variable_table@
    }

    /// The scope stack of variable bindings, innermost last
    pub closed spec fn scope(&self) -> Seq<Variable> {
        self.locals@
    }

    /// The sizes of the tables that ids made so far refer to; no label is
    /// made.
    pub closed spec fn tables(&self) -> Tables {
        Tables { strings: self.string_table.len(), variables: self.variable_table.len(), labels: 0 }
    }

    /// Current lexical scope depth
    pub closed spec fn depth(&self) -> usize {
        self.scope_depth
    }

    /// Current function nesting depth
    pub closed spec fn func_depth(&self) -> usize {
        self.function_depth
    }

    /// Internal consistency: the lookup table indexes the string table, which
    /// holds no string twice; every id refers to an existing entry; the
    /// outermost binding is `_ENV`.
    pub closed spec fn wf(&self) -> bool {
        &&& self.string_table@.len() <= u32::MAX + 1
        &&& self.variable_table@.len() <= u32::MAX + 1
        &&& forall|i: int|
            0 <= i < self.string_table@.len() ==> #[trigger] lookup_contents(
                self.string_lookup,
            ).contains_key(self.string_table@[i]@) && lookup_contents(self.string_lookup)[self.string_table@[i]@] == i
        &&& forall|k: Seq<u8>| #[trigger]
            lookup_contents(self.string_lookup).contains_key(k) ==> lookup_contents(
                self.string_lookup,
            )[k] < self.string_table@.len() && self.string_table@[lookup_contents(
                self.string_lookup,
            )[k] as int]@ == k
        &&& forall|i: int|
            0 <= i < self.variable_table@.len() ==> (#[trigger] self.variable_table@[i]).name.0
                < self.string_table@.len()
        &&& forall|i: int|
            0 <= i < self.locals@.len() ==> (variable_id(#[trigger] self.locals@[i]).0
                < self.variable_table@.len() && (self.locals@[i] matches Variable::Alias {
                name,
                ..
            } ==> name.0 < self.string_table@.len()))
        &&& forall|i: int|
            0 <= i < self.locals@.len() ==> variable_depth(#[trigger] self.locals@[i])
                <= self.scope_depth
        &&& forall|i: int, j: int|
            0 <= i <= j < self.locals@.len() ==> variable_depth(#[trigger] self.locals@[i])
                <= variable_depth(#[trigger] self.locals@[j])
        &&& self.locals@.len() >= 1
        &&& self.locals@[0] == (Variable::Var {
            depth: 0,
            id: nt::VariableId(0),
            func_depth: None,
        })
        &&& self.variable_table@.len() >= 1
        &&& self.string_table@[self.variable_table@[0].name.0 as int]@ == environment_name()
    }

    /// Strings that are interned never change id
    pub closed spec fn grows_from(&self, old: &Self) -> bool {
        &&& old.string_table@.len() <= self.string_table@.len()
        &&& forall|i: int|
            0 <= i < old.string_table@.len() ==> #[trigger] self.string_table@[i]@
                == old.string_table@[i]@
        &&& old.variable_table@.len() <= self.variable_table@.len()
        &&& forall|i: int|
            0 <= i < old.variable_table@.len() ==> #[trigger] self.variable_table@[i]
                == old.variable_table@[i]
    }
}


/// The id of the string `s` in a table where it occurs
pub open spec fn id_of(strings: Seq<Seq<u8>>, s: Seq<u8>) -> nt::StringId {
    nt::StringId(choose|i: u32| i < strings.len() && strings[i as int] == s)
}

impl<'a> Resolver<'a> {
    /// No string occurs twice in the string table, so each string has a
    /// single id.
    pub proof fn lemma_strings_distinct(&self)
        requires
            self.wf(),
        ensures
            forall|i: int, j: int|
                0 <= i < self.strings().len() && 0 <= j < self.strings().len()
                    && self.strings()[i] == self.strings()[j] ==> i == j,
    {
        assert forall|i: int, j: int|
            0 <= i < self.strings().len() && 0 <= j < self.strings().len() && self.strings()[i]
                == self.strings()[j] implies i == j by {
            assert(self.string_table@[i]@ == self.strings()[i]);
            assert(self.string_table@[j]@ == self.strings()[j]);
            assert(lookup_contents(self.string_lookup).contains_key(self.string_table@[i]@));
            assert(lookup_contents(self.string_lookup).contains_key(self.string_table@[j]@));
        }
    }

    /// When `s` is in the table at `i`, `id_of` names exactly `i`.
    pub proof fn lemma_id_of(&self, s: Seq<u8>, i: int)
        requires
            self.wf(),
            0 <= i < self.strings().len(),
            self.strings()[i] == s,
        ensures
            id_of(self.strings(), s).0 == i,
    {
        self.lemma_strings_distinct();
        assert(i <= u32::MAX);
        let w = i as u32;
        assert(w < self.strings().len() && self.strings()[w as int] == s);
    }

    /// Create a new name resolver
    pub fn new(ast: &'a ast::Block<'a>) -> (res: Self)
        ensures
            res.wf(),
            res.syntax() == *ast,
            res.strings() == seq![environment_name()],
            res.variables() == seq![
                nt::Local { line: None, name: nt::StringId(0), attr_close: false, attr_const: false },
            ],
            res.scope() == seq![
                Variable::Var { depth: 0, id: nt::VariableId(0), func_depth: None },
            ],
            res.depth() == 0,
            res.func_depth() == 0,
    {
        let mut string_lookup = lookup_new();
        proof {
            lookup_contents(string_lookup).dom().lemma_len0_is_empty();
            assert(forall|k: Seq<u8>| !lookup_contents(string_lookup).contains_key(k));
        }
        let env = environment();
        let (id, _inserted) = lookup_entry(&mut string_lookup, env.as_slice(), 0);
        let mut string_table: Vec<Vec<u8>> = Vec::new();
        string_table.push(env);
        let env_s = nt::StringId(id);
        // Insert the `_ENV` local so there is a base case for global variable
        // resolution.
        let mut variable_table: Vec<nt::Local> = Vec::new();
        variable_table.push(
            nt::Local { line: None, name: env_s, attr_close: false, attr_const: false },
        );
        let mut locals: Vec<Variable> = Vec::new();
        locals.push(Variable::Var { depth: 0, id: nt::VariableId(0), func_depth: None });
        let this = Self {
            ast,
            string_table,
            string_lookup,
            variable_table,
            locals,
            scope_depth: 0,
            function_depth: 0,
        };
        assert(this.strings() =~= seq![environment_name()]);
        this
    }

    /// Insert a string into the string table, or find the id it already has.
    #[verifier::spinoff_prover]
    #[verifier::rlimit(40)]
    fn insert_string(&mut self, s: &[u8]) -> (res: Result<nt::StringId, ResolveError<'a>>)
        requires
            old(self).wf(),
        ensures
            final(self).syntax() == old(self).syntax(),
            res is Err <==> old(self).strings().len() > u32::MAX,
            res matches Ok(id) ==> {
                &&& final(self).wf()
                &&& final(self).grows_from(old(self))
                &&& id.0 < final(self).strings().len()
                &&& final(self).strings()[id.0 as int] == s@
                &&& old(self).strings().contains(s@) ==> final(self).strings() == old(
                    self,
                ).strings()
                &&& !old(self).strings().contains(s@) ==> final(self).strings() == old(
                    self,
                ).strings().push(s@)
                &&& final(self).variables() == old(self).variables()
                &&& final(self).scope() == old(self).scope()
                &&& final(self).depth() == old(self).depth()
                &&& final(self).func_depth() == old(self).func_depth()
            },
            res matches Err(e) ==> e == ResolveError::TooManyStrings && *final(self) == *old(self),
    {
        let len = self.string_table.len();
        if len > 0xFFFF_FFFF {
            return Err(ResolveError::TooManyStrings);
        }
        let id = len as u32;
        let ghost old_lookup = lookup_contents(self.string_lookup);
        let (found, inserted) = lookup_entry(&mut self.string_lookup, s, id);
        if inserted {
            self.string_table.push(vstd::slice::slice_to_vec(s));
            proof {
                assert(!old(self).strings().contains(s@)) by {
                    if old(self).strings().contains(s@) {
                        let j = choose|j: int|
                            0 <= j < old(self).strings().len() && old(self).strings()[j] == s@;
                        assert(old(self).string_table@[j]@ == s@);
                    }
                }
                assert(self.strings() =~= old(self).strings().push(s@));
                assert forall|k: Seq<u8>| #[trigger]
                    lookup_contents(self.string_lookup).contains_key(k) implies lookup_contents(
                    self.string_lookup,
                )[k] < self.string_table@.len() && self.string_table@[lookup_contents(
                    self.string_lookup,
                )[k] as int]@ == k by {
                    if k != s@ {
                        assert(old_lookup.contains_key(k));
                    }
                }
                assert forall|i: int|
                    0 <= i < self.string_table@.len() implies #[trigger] lookup_contents(
                    self.string_lookup,
                ).contains_key(self.string_table@[i]@) && lookup_contents(
                    self.string_lookup,
                )[self.string_table@[i]@] == i by {
                    if i < len {
                        assert(self.string_table@[i] == old(self).string_table@[i]);
                        assert(old_lookup.contains_key(old(self).string_table@[i]@));
                    }
                }
            }
        } else {
            proof {
                let j = old_lookup[s@] as int;
                assert(old(self).strings()[j] == s@);
                assert(old(self).strings().contains(s@));
            }
        }
        Ok(nt::StringId(found))
    }

    /// Find the innermost variable binding of the string `s`
    fn find(&self, s: nt::StringId) -> (res: Option<nt::VariableId>)
        requires
            self.wf(),
        ensures
            res == innermost(self.scope(), self.variables(), s, self.func_depth(), self.scope().len() as int),
            res matches Some(id) ==> id.0 < self.variables().len(),
    {
        // iterate through a stack, top first
        let mut i = self.locals.len();
        while i > 0
            invariant
                i <= self.locals@.len(),
                self.wf(),
                innermost(self.scope(), self.variables(), s, self.func_depth(), self.scope().len() as int)
                    == innermost(self.scope(), self.variables(), s, self.func_depth(), i as int),
            decreases i,
        {
            let l = self.locals[i - 1];
            match l {
                Variable::Var { id, func_depth, .. } => {
                    let var = self.variable_table[id.0 as usize];
                    let depth_ok = match func_depth {
                        None => true,
                        Some(d) => d == self.function_depth,
                    };
                    if var.name == s && depth_ok {
                        return Some(id);
                    }
                },
                Variable::Alias { name, id, .. } => {
                    if name == s {
                        return Some(id);
                    }
                },
            }
            i = i - 1;
        }
        None
    }

    /// Get a variable id for a variable name
    fn resolve(&mut self, name: &[u8]) -> (res: Result<ResolveResult, ResolveError<'a>>)
        requires
            old(self).wf(),
        ensures
            final(self).syntax() == old(self).syntax(),
            res is Ok ==> final(self).wf() && final(self).grows_from(old(self)),
            res is Ok ==> {
                &&& final(self).variables() == old(self).variables()
                &&& final(self).scope() == old(self).scope()
                &&& final(self).depth() == old(self).depth()
                &&& final(self).func_depth() == old(self).func_depth()
            },
            res matches Ok(r) ==> ({
                let st = final(self).strings();
                let s = id_of(st, name@);
                let env = id_of(st, environment_name());
                let n = final(self).scope().len() as int;
                let fd = final(self).func_depth();
                &&& st.contains(name@)
                &&& match innermost(final(self).scope(), final(self).variables(), s, fd, n) {
                    Some(id) => r == ResolveResult::Local(id),
                    None => r matches ResolveResult::Global { env: e, names } && names@ == seq![s]
                        && Some(e) == innermost(final(self).scope(), final(self).variables(), env, fd, n),
                }
            }),
            res matches Ok(r) ==> result_refs(r, final(self).tables()),
            res matches Err(e) ==> table_full(*final(self), e),
            res matches Err(e) ==> const_target(*final(self), e),
            old(self).strings().len() < u32::MAX ==> res is Ok,
    {
        let s = self.insert_string(name)?;
        proof {
            self.lemma_id_of(name@, s.0 as int);
        }
        if let Some(id) = self.find(s) {
            return Ok(ResolveResult::Local(id));
        }
        // no locals, so find a global in the current environment
        let env_name = environment();
        let ghost mid = *self;
        let env_s = self.insert_string(env_name.as_slice())?;
        proof {
            let e0 = self.variable_table@[0].name.0 as int;
            assert(mid.strings()[e0] == environment_name());
            assert(mid.strings().contains(environment_name()));
            self.lemma_id_of(environment_name(), env_s.0 as int);
            self.lemma_id_of(environment_name(), e0);
            self.lemma_id_of(name@, s.0 as int);
            assert(binds(self.locals@[0], self.variable_table@, env_s, self.function_depth));
            lemma_innermost_found(
                self.locals@,
                self.variable_table@,
                env_s,
                self.function_depth,
                self.locals@.len() as int,
                0,
            );
        }
        let env = match self.find(env_s) {
            Some(e) => e,
            None => return Err(ResolveError::TooManyVariables),
        };
        let names = vec![s];
        assert(names@ =~= seq![s]);
        assert(names@[0] == s);
        Ok(ResolveResult::Global { env, names })
    }
}


/// Ids of all statements in `s` are `ScopeEnd`s of the variables `ids`.
pub open spec fn is_scope_ends(s: Seq<nt::Statement>, ids: Seq<nt::VariableId>) -> bool {
    &&& s.len() == ids.len()
    &&& forall|i: int| 0 <= i < s.len() ==> s[i] == nt::Statement::ScopeEnd(ids[i])
}

impl<'a> Resolver<'a> {
    /// `new` keeps what `self` has interned and defined, is consistent, and is
    /// at the same scope and function depth.
    pub closed spec fn kept(&self, new: &Self) -> bool {
        &&& new.wf()
        &&& new.grows_from(self)
        &&& new.depth() == self.depth()
        &&& new.func_depth() == self.func_depth()
    }

    /// Enter a lexical scope
    fn scope_enter(&mut self) -> (res: Result<(), ResolveError<'a>>)
        requires
            old(self).wf(),
        ensures
            res is Err <==> old(self).depth() == usize::MAX,
            res is Ok ==> {
                &&& final(self).wf()
                &&& final(self).depth() == old(self).depth() + 1
                &&& final(self).func_depth() == old(self).func_depth()
                &&& final(self).strings() == old(self).strings()
                &&& final(self).variables() == old(self).variables()
                &&& final(self).scope() == old(self).scope()
                &&& final(self).grows_from(old(self))
            },
            res matches Err(e) ==> e == ResolveError::TooDeep && *final(self) == *old(self),
    {
        if self.scope_depth == usize::MAX {
            return Err(ResolveError::TooDeep);
        }
        self.scope_depth = self.scope_depth + 1;
        Ok(())
    }

    /// Leave a lexical scope: drop every binding made deeper than the scope
    /// left, and note the end of each dropped variable, innermost first.
    fn scope_leave(&mut self, out: &mut Vec<nt::Statement>)
        requires
            old(self).wf(),
            old(self).depth() > 0,
        ensures
            final(self).wf(),
            final(self).grows_from(old(self)),
            final(self).depth() == old(self).depth() - 1,
            final(self).func_depth() == old(self).func_depth(),
            final(self).strings() == old(self).strings(),
            final(self).variables() == old(self).variables(),
            ({
                let k = final(self).scope().len() as int;
                let popped = old(self).scope().subrange(k, old(self).scope().len() as int);
                &&& 1 <= k <= old(self).scope().len()
                &&& final(self).scope() == old(self).scope().take(k)
                &&& variable_depth(old(self).scope()[k - 1]) <= final(self).depth()
                &&& forall|j: int|
                    k <= j < old(self).scope().len() ==> variable_depth(
                        #[trigger] old(self).scope()[j],
                    ) > final(self).depth()
                &&& final(out)@.take(old(out)@.len() as int) == old(out)@
                &&& is_scope_ends(
                    final(out)@.skip(old(out)@.len() as int),
                    scope_ends(popped),
                )
            }),
            refs::appends_refs(old(out)@, final(out)@, final(self).tables()),
    {
        self.scope_depth = self.scope_depth - 1;
        let ghost full = self.locals@;
        let ghost out0 = out@;
        assert(out@.take(out0.len() as int) =~= out0);
        assert(full.subrange(full.len() as int, full.len() as int) =~= Seq::<Variable>::empty());
        assert(full.take(full.len() as int) =~= full);
        loop
            invariant
                1 <= self.locals@.len() <= full.len(),
                self.locals@ == full.take(self.locals@.len() as int),
                forall|j: int|
                    self.locals@.len() <= j < full.len() ==> variable_depth(#[trigger] full[j])
                        > self.scope_depth,
                out@.len() >= out0.len(),
                out@.take(out0.len() as int) == out0,
                is_scope_ends(
                    out@.skip(out0.len() as int),
                    scope_ends(full.subrange(self.locals@.len() as int, full.len() as int)),
                ),
                self.scope_depth == old(self).scope_depth - 1,
                self.string_table == old(self).string_table,
                self.string_lookup == old(self).string_lookup,
                self.variable_table == old(self).variable_table,
                self.function_depth == old(self).function_depth,
                full == old(self).locals@,
                old(self).wf(),
            ensures
                variable_depth(self.locals@[self.locals@.len() - 1]) <= self.scope_depth,
            decreases self.locals@.len(),
        {
            let n = self.locals.len();
            let last = self.locals[n - 1];
            let depth = match last {
                Variable::Var { depth, .. } => depth,
                Variable::Alias { depth, .. } => depth,
            };
            if depth > self.scope_depth {
                assert(n - 1 >= 1) by {
                    assert(variable_depth(full[0]) == 0);
                }
                let ghost before_out = out@;
                let ghost tail = full.subrange(n - 1, full.len() as int);
                proof {
                    assert(tail.drop_last() =~= full.subrange(n - 1, full.len() as int).drop_last());
                }
                if let Variable::Var { id: var, .. } = last {
                    out.push(nt::Statement::ScopeEnd(var));
                }
                self.locals.pop();
                proof {
                    let t_old = full.subrange(n as int, full.len() as int);
                    let t_new = full.subrange(n - 1, full.len() as int);
                    assert(t_new =~= seq![last] + t_old);
                    lemma_scope_ends_prepend(last, t_old);
                    assert(self.locals@ =~= full.take(n - 1));
                    assert(out@.take(out0.len() as int) =~= out0);
                    let ends_old = scope_ends(t_old);
                    let ends_new = scope_ends(t_new);
                    assert(out@.skip(out0.len() as int) =~= if last is Var {
                        before_out.skip(out0.len() as int).push(nt::Statement::ScopeEnd(variable_id(last)))
                    } else {
                        before_out.skip(out0.len() as int)
                    });
                }
            } else {
                break;
            }
        }
        proof {
            let k = self.locals@.len() as int;
            assert forall|i: int|
                0 <= i < self.locals@.len() implies variable_depth(#[trigger] self.locals@[i])
                <= self.scope_depth by {
                assert(self.locals@[i] == full[i]);
                assert(self.locals@[k - 1] == full[k - 1]);
            }
            assert forall|i: int, j: int|
                0 <= i <= j < self.locals@.len() implies variable_depth(
                #[trigger] self.locals@[i],
            ) <= variable_depth(#[trigger] self.locals@[j]) by {
                assert(self.locals@[i] == full[i]);
                assert(self.locals@[j] == full[j]);
            }
            assert forall|i: int| 0 <= i < self.locals@.len() implies (variable_id(
                #[trigger] self.locals@[i],
            ).0 < self.variable_table@.len() && (self.locals@[i] matches Variable::Alias {
                name,
                ..
            } ==> name.0 < self.string_table@.len())) by {
                assert(self.locals@[i] == full[i]);
            }
            assert(self.locals@[0] == full[0]);
            let popped = full.subrange(k, full.len() as int);
            let added = out@.skip(out0.len() as int);
            let t = self.tables();
            assert forall|j: int| 0 <= j < popped.len() implies (variable_id(#[trigger] popped[j]).0
                < t.variables) by {
                assert(popped[j] == full[k + j]);
            }
            lemma_scope_ends_within(popped, 0, t.variables as int);
            assert forall|i: int| 0 <= i < added.len() implies refs::statement_refs(
                #[trigger] added[i],
                t,
            ) by {
                assert(added[i] == nt::Statement::ScopeEnd(scope_ends(popped)[i]));
            }
            refs::lemma_statements_refs_all(added, t);
        }
    }

    /// Define a new variable, bound in the current scope.
    fn push_var(
        &mut self,
        name: nt::StringId,
        line: Option<usize>,
        attr_close: bool,
        attr_const: bool,
        func_depth: Option<usize>,
    ) -> (res: Result<nt::VariableId, ResolveError<'a>>)
        requires
            old(self).wf(),
            name.0 < old(self).strings().len(),
        ensures
            res is Err <==> old(self).variables().len() > u32::MAX,
            res matches Ok(id) ==> {
                &&& final(self).wf()
                &&& final(self).grows_from(old(self))
                &&& id.0 == old(self).variables().len()
                &&& final(self).variables() == old(self).variables().push(
                    nt::Local { line, name, attr_close, attr_const },
                )
                &&& final(self).scope() == old(self).scope().push(
                    Variable::Var { depth: old(self).depth(), id, func_depth },
                )
                &&& final(self).strings() == old(self).strings()
                &&& final(self).depth() == old(self).depth()
                &&& final(self).func_depth() == old(self).func_depth()
            },
            res matches Err(e) ==> e == ResolveError::TooManyVariables && *final(self) == *old(self),
    {
        let len = self.variable_table.len();
        if len > 0xFFFF_FFFF {
            return Err(ResolveError::TooManyVariables);
        }
        let var = nt::VariableId(len as u32);
        self.variable_table.push(nt::Local { line, name, attr_close, attr_const });
        self.locals.push(Variable::Var { depth: self.scope_depth, id: var, func_depth });
        proof {
            let n = self.locals@.len() - 1;
            assert forall|i: int, j: int|
                0 <= i <= j < self.locals@.len() implies variable_depth(
                #[trigger] self.locals@[i],
            ) <= variable_depth(#[trigger] self.locals@[j]) by {
                if j == n && i < n {
                    assert(self.locals@[i] == old(self).locals@[i]);
                } else if j < n {
                    assert(self.locals@[i] == old(self).locals@[i]);
                    assert(self.locals@[j] == old(self).locals@[j]);
                }
            }
            assert forall|i: int| 0 <= i < self.locals@.len() implies (variable_id(
                #[trigger] self.locals@[i],
            ).0 < self.variable_table@.len() && (self.locals@[i] matches Variable::Alias {
                name,
                ..
            } ==> name.0 < self.string_table@.len())) by {
                if i < n {
                    assert(self.locals@[i] == old(self).locals@[i]);
                }
            }
            assert forall|i: int| 0 <= i < self.variable_table@.len() implies (
            #[trigger] self.variable_table@[i]).name.0 < self.string_table@.len() by {
                if i < len {
                    assert(self.variable_table@[i] == old(self).variable_table@[i]);
                }
            }
            assert forall|i: int|
                0 <= i < self.locals@.len() implies variable_depth(#[trigger] self.locals@[i])
                <= self.scope_depth by {
                if i < n {
                    assert(self.locals@[i] == old(self).locals@[i]);
                }
            }
        }
        Ok(var)
    }

    /// Bind the string `name` to the existing variable `id` in the current
    /// scope.
    fn push_alias(&mut self, name: nt::StringId, id: nt::VariableId)
        requires
            old(self).wf(),
            name.0 < old(self).strings().len(),
            id.0 < old(self).variables().len(),
        ensures
            final(self).wf(),
            final(self).grows_from(old(self)),
            final(self).variables() == old(self).variables(),
            final(self).scope() == old(self).scope().push(
                Variable::Alias { depth: old(self).depth(), name, id },
            ),
            final(self).strings() == old(self).strings(),
            final(self).depth() == old(self).depth(),
            final(self).func_depth() == old(self).func_depth(),
    {
        self.locals.push(Variable::Alias { depth: self.scope_depth, name, id });
        proof {
            let n = self.locals@.len() - 1;
            assert forall|i: int, j: int|
                0 <= i <= j < self.locals@.len() implies variable_depth(
                #[trigger] self.locals@[i],
            ) <= variable_depth(#[trigger] self.locals@[j]) by {
                if j == n && i < n {
                    assert(self.locals@[i] == old(self).locals@[i]);
                } else if j < n {
                    assert(self.locals@[i] == old(self).locals@[i]);
                    assert(self.locals@[j] == old(self).locals@[j]);
                }
            }
            assert forall|i: int| 0 <= i < self.locals@.len() implies (variable_id(
                #[trigger] self.locals@[i],
            ).0 < self.variable_table@.len() && (self.locals@[i] matches Variable::Alias {
                name,
                ..
            } ==> name.0 < self.string_table@.len())) by {
                if i < n {
                    assert(self.locals@[i] == old(self).locals@[i]);
                }
            }
            assert forall|i: int|
                0 <= i < self.locals@.len() implies variable_depth(#[trigger] self.locals@[i])
                <= self.scope_depth by {
                if i < n {
                    assert(self.locals@[i] == old(self).locals@[i]);
                }
            }
        }
    }
}

/// The ids of the `ScopeEnd`s for some scope entries lie in every range that
/// holds the ids of the entries
proof fn lemma_scope_ends_within(popped: Seq<Variable>, lo: int, hi: int)
    requires
        forall|j: int| 0 <= j < popped.len() ==> lo <= (variable_id(#[trigger] popped[j]).0) < hi,
    ensures
        forall|i: int| 0 <= i < scope_ends(popped).len() ==> lo <= (#[trigger] scope_ends(popped)[i]).0 < hi,
    decreases popped.len(),
{
    if popped.len() > 0 {
        let r = popped.drop_last();
        assert forall|j: int| 0 <= j < r.len() implies lo <= (variable_id(#[trigger] r[j]).0) < hi by {
            assert(r[j] == popped[j]);
        }
        lemma_scope_ends_within(r, lo, hi);
        assert(lo <= variable_id(popped[popped.len() - 1]).0 < hi);
        match popped.last() {
            Variable::Var { id, .. } => {
                let e = scope_ends(popped);
                assert(e == seq![id] + scope_ends(r));
                assert forall|i: int| 0 <= i < e.len() implies lo <= (#[trigger] e[i]).0 < hi by {
                    if i > 0 {
                        assert(e[i] == scope_ends(r)[i - 1]);
                    }
                }
            },
            Variable::Alias { .. } => {},
        }
    }
}

proof fn lemma_scope_ends_prepend(v: Variable, t: Seq<Variable>)
    ensures
        scope_ends(seq![v] + t) == scope_ends(t) + if v is Var {
            seq![variable_id(v)]
        } else {
            Seq::<nt::VariableId>::empty()
        },
    decreases t.len(),
{
    let s = seq![v] + t;
    if t.len() == 0 {
        assert(s.drop_last() =~= Seq::<Variable>::empty());
        assert(s.last() == v);
        assert(scope_ends(s.drop_last()) == Seq::<nt::VariableId>::empty());
        assert(t =~= Seq::<Variable>::empty());
        assert(scope_ends(t) == Seq::<nt::VariableId>::empty());
        match v {
            Variable::Var { id, .. } => {
                assert(scope_ends(s) == seq![id] + scope_ends(s.drop_last()));
                assert(seq![id] + Seq::<nt::VariableId>::empty() =~= seq![id]);
                assert(Seq::<nt::VariableId>::empty() + seq![id] =~= seq![id]);
            },
            Variable::Alias { .. } => {
                assert(scope_ends(s) == scope_ends(s.drop_last()));
                assert(Seq::<nt::VariableId>::empty() + Seq::<nt::VariableId>::empty()
                    =~= Seq::<nt::VariableId>::empty());
            },
        }
    } else {
        assert(s.drop_last() =~= seq![v] + t.drop_last());
        assert(s.last() == t.last());
        lemma_scope_ends_prepend(v, t.drop_last());
        match t.last() {
            Variable::Var { id, .. } => {
                assert(scope_ends(s) =~= seq![id] + scope_ends(seq![v] + t.drop_last()));
            },
            Variable::Alias { .. } => {},
        }
    }
}


/// Whether the characters `v` spell `w`
pub fn chars_are(v: &[char], w: &[char]) -> (res: bool)
    ensures
        res == (v@ == w@),
{
    if v.len() != w.len() {
        return false;
    }
    let mut i: usize = 0;
    while i < v.len()
        invariant
            i <= v.len(),
            v.len() == w.len(),
            forall|j: int| 0 <= j < i ==> v@[j] == w@[j],
        decreases v.len() - i,
    {
        if v[i] != w[i] {
            return false;
        }
        i = i + 1;
    }
    assert(v@ =~= w@);
    true
}

/// Kind of a number literal: whether it is hexadecimal
pub open spec fn is_hex_literal(t: Seq<char>) -> bool {
    t.len() >= 2 && t[0] == '0' && (t[1] == 'x' || t[1] == 'X')
}

/// Whether a number literal is a float: it holds a `.` or an exponent mark
pub open spec fn is_float_literal(t: Seq<char>) -> bool {
    if is_hex_literal(t) {
        t.contains('.') || t.contains('p') || t.contains('P')
    } else {
        t.contains('.') || t.contains('e') || t.contains('E')
    }
}

/// Whether a decimal literal is an integer that fits in 64 bits
pub open spec fn is_u64_literal(t: Seq<char>) -> bool {
    &&& t.len() > 0
    &&& crate::name_resolution::literal::all_decimal(t)
    &&& crate::name_resolution::literal::decimal_value(t) <= u64::MAX
}

/// The number `m` that a number literal with the text `t` resolves to
pub open spec fn number_resolves(t: Seq<char>, m: nt::Number) -> bool {
    if is_float_literal(t) {
        m matches nt::Number::Float(f) && f@ == t
    } else if is_hex_literal(t) {
        m matches nt::Number::Integer(n) && n == hex_number_value(t.skip(2))
            % 0x1_0000_0000_0000_0000
    } else if is_u64_literal(t) {
        m matches nt::Number::Integer(n) && n == crate::name_resolution::literal::decimal_value(t)
    } else {
        m matches nt::Number::Float(f) && f@ == t
    }
}

fn contains_char(v: &[char], c: char) -> (res: bool)
    ensures
        res == v@.contains(c),
{
    let mut i: usize = 0;
    while i < v.len()
        invariant
            i <= v.len(),
            forall|j: int| 0 <= j < i ==> v@[j] != c,
        decreases v.len() - i,
    {
        if v[i] == c {
            assert(v@[i as int] == c);
            return true;
        }
        i = i + 1;
    }
    false
}

/// Parse a decimal integer literal, if it is one that fits in 64 bits
fn parse_u64(v: &[char]) -> (res: Option<u64>)
    ensures
        res is Some <==> is_u64_literal(v@),
        res matches Some(n) ==> n == crate::name_resolution::literal::decimal_value(v@),
{
    if v.len() == 0 {
        return None;
    }
    let mut value: u64 = 0;
    let mut i: usize = 0;
    assert(v@.take(0) =~= Seq::<char>::empty());
    while i < v.len()
        invariant
            i <= v.len(),
            v.len() > 0,
            crate::name_resolution::literal::all_decimal(v@.take(i as int)),
            value == crate::name_resolution::literal::decimal_value(v@.take(i as int)),
        decreases v.len() - i,
    {
        let c = v[i];
        let ghost t = v@.take(i + 1);
        proof {
            assert(t.drop_last() =~= v@.take(i as int));
            assert(t.last() == c);
        }
        if !('0' <= c && c <= '9') {
            proof {
                assert(!crate::name_resolution::literal::is_decimal(v@[i as int]));
            }
            return None;
        }
        let d = c as u64 - '0' as u64;
        if value > (0xFFFF_FFFF_FFFF_FFFFu64 - d) / 10 {
            proof {
                assert(crate::name_resolution::literal::decimal_value(t) > u64::MAX) by (nonlinear_arith)
                    requires
                        crate::name_resolution::literal::decimal_value(t) == value * 10 + d,
                        value > (0xFFFF_FFFF_FFFF_FFFFu64 - d) / 10,
                        d <= 9,
                ;
                lemma_decimal_prefix_le(v@, i + 1);
            }
            return None;
        }
        value = value * 10 + d;
        i = i + 1;
        proof {
            assert(crate::name_resolution::literal::all_decimal(t)) by {
                assert forall|j: int| 0 <= j < t.len() implies #[trigger]
                crate::name_resolution::literal::is_decimal(t[j]) by {
                    if j < i - 1 {
                        assert(t[j] == v@.take(i - 1)[j]);
                    }
                }
            }
        }
    }
    assert(v@.take(i as int) =~= v@);
    Some(value)
}

/// A decimal literal is worth at least any of its prefixes.
proof fn lemma_decimal_prefix_le(t: Seq<char>, n: int)
    requires
        0 <= n <= t.len(),
        crate::name_resolution::literal::all_decimal(t.take(n)),
    ensures
        crate::name_resolution::literal::all_decimal(t) ==> crate::name_resolution::literal::decimal_value(
            t.take(n),
        ) <= crate::name_resolution::literal::decimal_value(t),
    decreases t.len() - n,
{
    if n < t.len() && crate::name_resolution::literal::all_decimal(t) {
        let u = t.take(n + 1);
        assert(u.drop_last() =~= t.take(n));
        assert(crate::name_resolution::literal::is_decimal(t[n]));
        assert(crate::name_resolution::literal::all_decimal(u)) by {
            assert forall|j: int| 0 <= j < u.len() implies #[trigger]
            crate::name_resolution::literal::is_decimal(u[j]) by {
                assert(u[j] == t[j]);
            }
        }
        lemma_decimal_prefix_le(t, n + 1);
    } else if n == t.len() {
        assert(t.take(n) =~= t);
    }
}

impl<'a> Resolver<'a> {
    /// Strings interned and variables defined by `a` are those of `b`
    proof fn lemma_grows_keeps(a: &Self, b: &Self)
        requires
            b.grows_from(a),
        ensures
            forall|i: int| 0 <= i < a.variables().len() ==> #[trigger] b.variables()[i] == a.variables()[i],
            forall|i: int| 0 <= i < a.strings().len() ==> #[trigger] b.strings()[i] == a.strings()[i],
    {
        assert forall|i: int| 0 <= i < a.strings().len() implies #[trigger] b.strings()[i]
            == a.strings()[i] by {
            assert(b.string_table@[i]@ == a.string_table@[i]@);
        }
    }

    /// Parameters declared in `a` stay declared in `b`, which keeps what
    /// `a` interned and defined
    proof fn lemma_declared_kept<'b>(
        a: &Self,
        b: &Self,
        self_var: Option<nt::VariableId>,
        names: Seq<nt::VariableId>,
        var_name: Option<nt::VariableId>,
        params: ast::ParameterList<'b>,
        has_self: bool,
    )
        requires
            a.wf(),
            b.grows_from(a),
        ensures
            self_declared(self_var, a.variables(), a.strings(), has_self) ==> self_declared(
                self_var,
                b.variables(),
                b.strings(),
                has_self,
            ),
            names_declared(names, a.variables(), a.strings(), params.names@) ==> names_declared(
                names,
                b.variables(),
                b.strings(),
                params.names@,
            ),
            var_name_declared(var_name, a.variables(), a.strings(), params.var_name)
                ==> var_name_declared(var_name, b.variables(), b.strings(), params.var_name),
    {
        Self::lemma_grows_keeps(a, b);
        if let Some(v) = self_var {
            if v.0 < a.variables().len() {
                assert(a.variable_table@[v.0 as int].name.0 < a.string_table@.len());
            }
        }
        if let Some(v) = var_name {
            if v.0 < a.variables().len() {
                assert(a.variable_table@[v.0 as int].name.0 < a.string_table@.len());
            }
        }
        if names_declared(names, a.variables(), a.strings(), params.names@) {
            assert forall|i: int| 0 <= i < names.len() implies (
            #[trigger] names[i]).0 < b.variables().len() && plain_var(
                b.variables()[names[i].0 as int],
                b.strings(),
                vstd::utf8::encode_utf8(params.names@[i].value@),
                Some(params.names@[i].line),
            ) by {
                assert(a.variable_table@[names[i].0 as int].name.0 < a.string_table@.len());
            }
        }
    }

    /// Leaving, in `b`, the scope that `a` entered, when every binding made
    /// since is deeper, gives back the scope of `a`
    proof fn lemma_leave(a: &Self, b: &Self, c: &Self)
        requires
            a.wf(),
            a.depth() < usize::MAX,
            scope_pushed(a.scope(), b.scope(), (a.depth() + 1) as usize, a.variables().len()),
            c.depth() == a.depth(),
            1 <= c.scope().len() <= b.scope().len(),
            c.scope() == b.scope().take(c.scope().len() as int),
            variable_depth(b.scope()[c.scope().len() - 1]) <= c.depth(),
            forall|j: int|
                c.scope().len() <= j < b.scope().len() ==> variable_depth(#[trigger] b.scope()[j])
                    > c.depth(),
        ensures
            c.scope() == a.scope(),
    {
        lemma_leave_restores(
            a.scope(),
            b.scope(),
            c.scope().len() as int,
            a.depth(),
            a.variables().len(),
        );
    }

    /// Whether a name interned in `a` resolves to a `<const>` local stays so
    /// in `b`, which keeps what `a` interned and defined and its scope.
    proof fn lemma_names_const_kept(a: &Self, b: &Self, text: Seq<u8>)
        requires
            a.wf(),
            b.wf(),
            b.grows_from(a),
            b.scope() == a.scope(),
            b.func_depth() == a.func_depth(),
            a.strings().contains(text),
        ensures
            b.strings().contains(text),
            names_const(b.scope(), b.variables(), b.strings(), b.func_depth(), text) == names_const(
                a.scope(),
                a.variables(),
                a.strings(),
                a.func_depth(),
                text,
            ),
    {
        Self::lemma_grows_keeps(a, b);
        let k = choose|k: int| 0 <= k < a.strings().len() && a.strings()[k] == text;
        assert(b.strings()[k] == text);
        a.lemma_id_of(text, k);
        b.lemma_id_of(text, k);
        let s = id_of(a.strings(), text);
        let n = a.scope().len() as int;
        lemma_innermost_stable(a.scope(), a.variables(), b.variables(), s, a.func_depth(), n);
        lemma_innermost_entry(a.scope(), a.variables(), s, a.func_depth(), n);
    }

    /// Where strings and variables only grew and the scope is the same, a
    /// name that was interned has the same id and the same binding
    proof fn lemma_binding_kept(a: &Self, b: &Self, text: Seq<u8>)
        requires
            a.wf(),
            b.wf(),
            b.grows_from(a),
            b.scope() == a.scope(),
            b.func_depth() == a.func_depth(),
            a.strings().contains(text),
        ensures
            b.strings().contains(text),
            id_of(b.strings(), text) == id_of(a.strings(), text),
            innermost(
                b.scope(),
                b.variables(),
                id_of(b.strings(), text),
                b.func_depth(),
                b.scope().len() as int,
            ) == innermost(
                a.scope(),
                a.variables(),
                id_of(a.strings(), text),
                a.func_depth(),
                a.scope().len() as int,
            ),
    {
        Self::lemma_grows_keeps(a, b);
        let k = choose|k: int| 0 <= k < a.strings().len() && a.strings()[k] == text;
        assert(b.strings()[k] == text);
        a.lemma_id_of(text, k);
        b.lemma_id_of(text, k);
        let s = id_of(a.strings(), text);
        let n = a.scope().len() as int;
        lemma_innermost_stable(a.scope(), a.variables(), b.variables(), s, a.func_depth(), n);
    }

    /// Where strings and variables only grew, a name interned before
    /// resolves, in the old scope, as it did
    proof fn lemma_name_grown(a: &Self, b: &Self, sc: Seq<Variable>, fd: usize, v: nt::Var, text: Seq<u8>)
        requires
            a.wf(),
            b.wf(),
            b.grows_from(a),
            forall|j: int| 0 <= j < sc.len() ==> variable_id(#[trigger] sc[j]).0 < a.variables().len(),
            a.strings().contains(text),
            name_resolves_to(v, sc, a.variables(), a.strings(), fd, text),
        ensures
            b.strings().contains(text),
            name_resolves_to(v, sc, b.variables(), b.strings(), fd, text),
    {
        Self::lemma_grows_keeps(a, b);
        let k = choose|k: int| 0 <= k < a.strings().len() && a.strings()[k] == text;
        assert(b.strings()[k] == text);
        a.lemma_id_of(text, k);
        b.lemma_id_of(text, k);
        let e0 = a.variable_table@[0].name.0 as int;
        assert(a.strings()[e0] == environment_name());
        assert(b.strings()[e0] == environment_name());
        a.lemma_id_of(environment_name(), e0);
        b.lemma_id_of(environment_name(), e0);
        let n = sc.len() as int;
        lemma_innermost_stable(
            sc,
            a.variables(),
            b.variables(),
            id_of(a.strings(), text),
            fd,
            n,
        );
        lemma_innermost_stable(
            sc,
            a.variables(),
            b.variables(),
            id_of(a.strings(), environment_name()),
            fd,
            n,
        );
    }

    /// An expression bound in the scope of `a` stays bound as strings and
    /// variables grow
    proof fn lemma_expr_binds_grown(a: &Self, b: &Self, sc: Seq<Variable>, fd: usize, x: ast::Expression<'a>, n: nt::Expression)
        requires
            a.wf(),
            b.wf(),
            b.grows_from(a),
            forall|j: int| 0 <= j < sc.len() ==> variable_id(#[trigger] sc[j]).0 < a.variables().len(),
            expr_binds(x, n, sc, a.variables(), a.strings(), fd),
        ensures
            expr_binds(x, n, sc, b.variables(), b.strings(), fd),
        decreases x, 0nat,
    {
        match x {
            ast::Expression::DotDotDot => {
                if let nt::Expression::Prefix(nt::PrefixExpression::Var(v)) = n {
                    Self::lemma_name_grown(a, b, sc, fd, *v, dots_name());
                }
            },
            ast::Expression::Prefix(p) => {
                Self::lemma_prefix_binds_grown(a, b, sc, fd, p, n->Prefix_0);
            },
            ast::Expression::Table(t) => {
                Self::lemma_fields_bind_grown(a, b, sc, fd, t.fields@, n->Table_0.fields@);
            },
            ast::Expression::Binary { left, right, .. } => {
                Self::lemma_expr_binds_grown(a, b, sc, fd, *left, *n->Binary_left);
                Self::lemma_expr_binds_grown(a, b, sc, fd, *right, *n->Binary_right);
            },
            ast::Expression::Unary { expr, .. } => {
                Self::lemma_expr_binds_grown(a, b, sc, fd, *expr, *n->Unary_expr);
            },
            ast::Expression::Function(f) => {
                Self::lemma_nested_binds_grown(a, b, sc, (fd + 1) as usize, f.body, n->Function_0.body);
            },
            _ => {},
        }
    }

    /// A prefix expression stays bound as strings and variables grow
    proof fn lemma_prefix_binds_grown(
        a: &Self,
        b: &Self,
        sc: Seq<Variable>,
        fd: usize,
        x: ast::PrefixExpression<'a>,
        n: nt::PrefixExpression,
    )
        requires
            a.wf(),
            b.wf(),
            b.grows_from(a),
            forall|j: int| 0 <= j < sc.len() ==> variable_id(#[trigger] sc[j]).0 < a.variables().len(),
            prefix_binds(x, n, sc, a.variables(), a.strings(), fd),
        ensures
            prefix_binds(x, n, sc, b.variables(), b.strings(), fd),
        decreases x, 0nat,
    {
        match x {
            ast::PrefixExpression::Var(v) => {
                Self::lemma_var_binds_grown(a, b, sc, fd, *v, *n->Var_0);
            },
            ast::PrefixExpression::Call(c) => {
                Self::lemma_call_binds_grown(a, b, sc, fd, c, n->Call_0);
            },
            ast::PrefixExpression::Expr(e) => {
                Self::lemma_expr_binds_grown(a, b, sc, fd, *e, *n->Expr_0);
            },
        }
    }

    /// A variable stays bound as strings and variables grow
    proof fn lemma_var_binds_grown(a: &Self, b: &Self, sc: Seq<Variable>, fd: usize, x: ast::Var<'a>, n: nt::Var)
        requires
            a.wf(),
            b.wf(),
            b.grows_from(a),
            forall|j: int| 0 <= j < sc.len() ==> variable_id(#[trigger] sc[j]).0 < a.variables().len(),
            var_binds(x, n, sc, a.variables(), a.strings(), fd),
        ensures
            var_binds(x, n, sc, b.variables(), b.strings(), fd),
        decreases x, 0nat,
    {
        match x {
            ast::Var::Name(t) => {
                Self::lemma_name_grown(a, b, sc, fd, n, vstd::utf8::encode_utf8(t.value@));
            },
            ast::Var::Index { first, index } => {
                Self::lemma_prefix_binds_grown(a, b, sc, fd, first, n->Index_first);
                Self::lemma_expr_binds_grown(a, b, sc, fd, index, n->Index_index);
            },
            ast::Var::Dot { first, .. } => {
                Self::lemma_prefix_binds_grown(a, b, sc, fd, first, n->Dot_first);
            },
        }
    }

    /// A call stays bound as strings and variables grow
    proof fn lemma_call_binds_grown(a: &Self, b: &Self, sc: Seq<Variable>, fd: usize, x: ast::FunctionCall<'a>, n: nt::FunctionCall)
        requires
            a.wf(),
            b.wf(),
            b.grows_from(a),
            forall|j: int| 0 <= j < sc.len() ==> variable_id(#[trigger] sc[j]).0 < a.variables().len(),
            call_binds(x, n, sc, a.variables(), a.strings(), fd),
        ensures
            call_binds(x, n, sc, b.variables(), b.strings(), fd),
        decreases x, 0nat,
    {
        Self::lemma_prefix_binds_grown(a, b, sc, fd, *x.receiver, *n.receiver);
        match x.args {
            ast::FunctionArgs::Call { exprs } => {
                Self::lemma_exprs_bind_grown(a, b, sc, fd, exprs@, n.args->Call_exprs@);
            },
            ast::FunctionArgs::Table { table } => {
                Self::lemma_fields_bind_grown(a, b, sc, fd, table.fields@, n.args->Table_table.fields@);
            },
            _ => {},
        }
    }

    /// Expressions stay bound as strings and variables grow
    proof fn lemma_exprs_bind_grown(
        a: &Self,
        b: &Self,
        sc: Seq<Variable>,
        fd: usize,
        x: Seq<ast::Expression<'a>>,
        n: Seq<nt::Expression>,
    )
        requires
            a.wf(),
            b.wf(),
            b.grows_from(a),
            forall|j: int| 0 <= j < sc.len() ==> variable_id(#[trigger] sc[j]).0 < a.variables().len(),
            exprs_bind(x, n, sc, a.variables(), a.strings(), fd),
        ensures
            exprs_bind(x, n, sc, b.variables(), b.strings(), fd),
        decreases x, 1nat,
    {
        assert forall|i: int| 0 <= i < x.len() implies expr_binds(
            #[trigger] x[i],
            n[i],
            sc,
            b.variables(),
            b.strings(),
            fd,
        ) by {
            Self::lemma_expr_binds_grown(a, b, sc, fd, x[i], n[i]);
        }
    }

    /// Table fields stay bound as strings and variables grow
    proof fn lemma_fields_bind_grown(a: &Self, b: &Self, sc: Seq<Variable>, fd: usize, x: Seq<ast::Field<'a>>, n: Seq<nt::Field>)
        requires
            a.wf(),
            b.wf(),
            b.grows_from(a),
            forall|j: int| 0 <= j < sc.len() ==> variable_id(#[trigger] sc[j]).0 < a.variables().len(),
            fields_bind(x, n, sc, a.variables(), a.strings(), fd),
        ensures
            fields_bind(x, n, sc, b.variables(), b.strings(), fd),
        decreases x, 1nat,
    {
        assert forall|i: int| 0 <= i < x.len() implies field_binds(
            #[trigger] x[i],
            n[i],
            sc,
            b.variables(),
            b.strings(),
            fd,
        ) by {
            match x[i] {
                ast::Field::Index { index, expr } => {
                    Self::lemma_expr_binds_grown(a, b, sc, fd, index, n[i]->Index_index);
                    Self::lemma_expr_binds_grown(a, b, sc, fd, expr, n[i]->Index_expr);
                },
                ast::Field::Assign { expr, .. } => {
                    Self::lemma_expr_binds_grown(a, b, sc, fd, expr, n[i]->Assign_expr);
                },
                ast::Field::Exp { expr } => {
                    Self::lemma_expr_binds_grown(a, b, sc, fd, expr, n[i]->Exp_expr);
                },
            }
        }
    }

    /// A statement's names stay bound as strings and variables grow
    proof fn lemma_stmt_binds_grown(
        a: &Self,
        b: &Self,
        sc: Seq<Variable>,
        fd: usize,
        s: ast::Statement<'a>,
        t: nt::Statement,
    )
        requires
            a.wf(),
            b.wf(),
            b.grows_from(a),
            forall|j: int| 0 <= j < sc.len() ==> variable_id(#[trigger] sc[j]).0 < a.variables().len(),
            stmt_binds(s, t, sc, a.variables(), a.strings(), fd),
        ensures
            stmt_binds(s, t, sc, b.variables(), b.strings(), fd),
        decreases s, 0nat,
    {
        match s {
            ast::Statement::Assign { vars, exps } => {
                let v = t->Assign_vars;
                assert forall|i: int| 0 <= i < vars@.len() implies var_binds(
                    #[trigger] vars@[i],
                    v@[i],
                    sc,
                    b.variables(),
                    b.strings(),
                    fd,
                ) by {
                    Self::lemma_var_binds_grown(a, b, sc, fd, vars@[i], v@[i]);
                }
                Self::lemma_exprs_bind_grown(a, b, sc, fd, exps@, t->Assign_exps@);
            },
            ast::Statement::Call(c) => {
                Self::lemma_call_binds_grown(a, b, sc, fd, c, t->Call_0);
            },
            ast::Statement::Block(bl) => {
                Self::lemma_nested_binds_grown(a, b, sc, fd, bl, t->Block_0);
            },
            ast::Statement::While { expr, block } => {
                Self::lemma_expr_binds_grown(a, b, sc, fd, expr, t->While_expr);
                Self::lemma_nested_binds_grown(a, b, sc, fd, block, t->While_block);
            },
            ast::Statement::If { expr, block, elseif, else_block } => {
                Self::lemma_expr_binds_grown(a, b, sc, fd, expr, t->If_expr);
                Self::lemma_nested_binds_grown(a, b, sc, fd, block, t->If_block);
                if let Some(y) = else_block {
                    Self::lemma_nested_binds_grown(a, b, sc, fd, y, t->If_else_block->0);
                }
                let e = t->If_elseif;
                assert forall|i: int| 0 <= i < e@.len() implies nested_binds(
                    (#[trigger] elseif@[i]).1,
                    e@[i].1,
                    sc,
                    b.variables(),
                    b.strings(),
                    fd,
                ) by {
                    Self::lemma_nested_binds_grown(a, b, sc, fd, elseif@[i].1, e@[i].1);
                }
                assert forall|i: int| 0 <= i < e@.len() implies expr_binds(
                    (#[trigger] elseif@[i]).0,
                    e@[i].0,
                    sc,
                    b.variables(),
                    b.strings(),
                    fd,
                ) by {
                    Self::lemma_expr_binds_grown(a, b, sc, fd, elseif@[i].0, e@[i].0);
                }
            },
            ast::Statement::For { initial, limit, step, block, .. } => {
                Self::lemma_nested_binds_grown(a, b, sc, fd, block, t->For_block);
                let v = t->For_name;
                assert(b.variables()[v.0 as int] == a.variables()[v.0 as int]);
                Self::lemma_grows_extends(a, b);
                Self::lemma_expr_binds_grown(a, b, sc, fd, initial, t->For_initial);
                Self::lemma_expr_binds_grown(a, b, sc, fd, limit, t->For_limit);
                if let Some(x) = step {
                    Self::lemma_expr_binds_grown(a, b, sc, fd, x, t->For_step->0);
                }
            },
            ast::Statement::ForEach { names, exprs, block } => {
                Self::lemma_nested_binds_grown(a, b, sc, fd, block, t->ForEach_block);
                Self::lemma_loop_vars_grown(a, b, t->ForEach_names@, names@);
                Self::lemma_exprs_bind_grown(a, b, sc, fd, exprs@, t->ForEach_exprs@);
            },
            ast::Statement::Function { body, .. } => {
                Self::lemma_nested_binds_grown(a, b, sc, (fd + 1) as usize, body.body, t->Function_body.body);
            },
            ast::Statement::Repeat { block, expr } => {
                let (d, n, scs) = choose|d: usize, n: nat, scs: Seq<Seq<Variable>>|
                    #[trigger] scopes_within(sc, scs, d, n, a.variables()) && block_binds_with(
                        block,
                        t->Repeat_block,
                        scs,
                        sc,
                        d,
                        n,
                        a.variables(),
                        a.strings(),
                        fd,
                    ) && expr_binds(
                        expr,
                        t->Repeat_expr,
                        scs[block.statements@.len() as int],
                        a.variables(),
                        a.strings(),
                        fd,
                    );
                Self::lemma_block_binds_with_grown(a, b, scs, sc, d, n, fd, block, t->Repeat_block);
                let l = block.statements@.len() as int;
                assert forall|k: int| 0 <= k < scs[l].len() implies variable_id(#[trigger] scs[l][k]).0
                    < a.variables().len() by {}
                Self::lemma_expr_binds_grown(a, b, scs[l], fd, expr, t->Repeat_expr);
                assert(scopes_within(sc, scs, d, n, b.variables()));
            },
            _ => {},
        }
    }

    /// What a statement emits stays bound as strings and variables grow
    proof fn lemma_emitted_binds_grown(
        a: &Self,
        b: &Self,
        sc: Seq<Variable>,
        fd: usize,
        s: ast::Statement<'a>,
        seg: Seq<nt::Statement>,
    )
        requires
            a.wf(),
            b.wf(),
            b.grows_from(a),
            forall|j: int| 0 <= j < sc.len() ==> variable_id(#[trigger] sc[j]).0 < a.variables().len(),
            emitted_binds(s, seg, sc, a.variables(), a.strings(), fd),
        ensures
            emitted_binds(s, seg, sc, b.variables(), b.strings(), fd),
        decreases s, 1nat,
    {
        match s {
            ast::Statement::Declare { exprs, .. } => {
                if exprs@.len() > 0 {
                    Self::lemma_exprs_bind_grown(a, b, sc, fd, exprs@, seg.last()->Assign_exps@);
                }
            },
            ast::Statement::GlobalCollective { .. } => {},
            _ => {
                Self::lemma_stmt_binds_grown(a, b, sc, fd, s, seg.last());
            },
        }
    }

    /// One more statement of a block keeps the bindings that the statements
    /// before it make, and adds its own, in the scope where it stands
    proof fn lemma_binds_step(
        before: &Self,
        after: &Self,
        fd: usize,
        t: Seq<ast::Statement<'a>>,
        done: Seq<nt::Statement>,
        now: Seq<nt::Statement>,
        done_scs: Seq<Seq<Variable>>,
        scs: Seq<Seq<Variable>>,
        i: int,
    )
        requires
            before.wf(),
            after.wf(),
            after.grows_from(before),
            0 <= i < t.len(),
            done_scs.len() == i,
            scs == done_scs.push(before.scope()),
            done.len() == total_len(t.take(i)),
            now.len() == total_len(t.take(i + 1)),
            now.take(done.len() as int) == done,
            forall|j: int, k: int|
                0 <= j < i && 0 <= k < done_scs[j].len() ==> variable_id(#[trigger] done_scs[j][k]).0
                    < before.variables().len(),
            forall|j: int|
                0 <= j < i ==> emitted_binds(
                    #[trigger] t[j],
                    done.subrange(total_len(t.take(j)), total_len(t.take(j)) + emitted_len(t[j])),
                    done_scs[j],
                    before.variables(),
                    before.strings(),
                    fd,
                ),
            !(t[i] is Declare) && !(t[i] is GlobalCollective) ==> stmt_binds(
                t[i],
                now.last(),
                before.scope(),
                after.variables(),
                after.strings(),
                fd,
            ),
            t[i] is Declare ==> values_bind(
                t[i]->Declare_exprs@,
                now,
                before.scope(),
                after.variables(),
                after.strings(),
                fd,
            ),
        ensures
            forall|j: int, k: int|
                0 <= j <= i && 0 <= k < scs[j].len() ==> variable_id(#[trigger] scs[j][k]).0
                    < after.variables().len(),
            forall|j: int|
                0 <= j <= i ==> emitted_binds(
                    #[trigger] t[j],
                    now.subrange(total_len(t.take(j)), total_len(t.take(j)) + emitted_len(t[j])),
                    scs[j],
                    after.variables(),
                    after.strings(),
                    fd,
                ),
    {
        assert forall|j: int, k: int|
            0 <= j <= i && 0 <= k < scs[j].len() implies variable_id(#[trigger] scs[j][k]).0
                < after.variables().len() by {
            if j < i {
                assert(scs[j] == done_scs[j]);
            } else {
                assert(scs[j] == before.scope());
                assert(before.locals@[k] == scs[j][k]);
            }
        }
        assert(t.take(i + 1).drop_last() =~= t.take(i));
        assert(t.take(i + 1).last() == t[i]);
        assert forall|j: int| 0 <= j <= i implies emitted_binds(
            #[trigger] t[j],
            now.subrange(total_len(t.take(j)), total_len(t.take(j)) + emitted_len(t[j])),
            scs[j],
            after.variables(),
            after.strings(),
            fd,
        ) by {
            if j < i {
                lemma_total_len_prefix(t, j, i);
                let lo = total_len(t.take(j));
                let hi = total_len(t.take(j)) + emitted_len(t[j]);
                assert(now.subrange(lo, hi) =~= done.subrange(lo, hi)) by {
                    assert forall|m: int| 0 <= m < hi - lo implies #[trigger] now.subrange(lo, hi)[m]
                        == done.subrange(lo, hi)[m] by {
                        assert(now.take(done.len() as int)[lo + m] == now[lo + m]);
                    }
                }
                assert(scs[j] == done_scs[j]);
                assert forall|k: int| 0 <= k < scs[j].len() implies variable_id(
                    #[trigger] scs[j][k],
                ).0 < before.variables().len() by {
                    assert(done_scs[j][k] == scs[j][k]);
                }
                Self::lemma_emitted_binds_grown(before, after, scs[j], fd, t[j], now.subrange(lo, hi));
            } else {
                let seg = now.subrange(total_len(t.take(i)), now.len() as int);
                assert(scs[j] == before.scope());
                if seg.len() >= 1 {
                    assert(seg.last() == now.last());
                }
            }
        }
    }

    /// The statements of a block, each bound in the scope where it stands, and
    /// its return, bound in the scope after them, make the block bound
    proof fn lemma_block_binds_done(
        k0: &Self,
        k1: &Self,
        fin: &Self,
        block: ast::Block<'a>,
        b: nt::Block,
        sc0: Seq<Variable>,
        d: usize,
        n: nat,
        fd: usize,
        scs: Seq<Seq<Variable>>,
    )
        requires
            k0.wf(),
            k1.wf(),
            fin.wf(),
            k1.grows_from(k0),
            fin.grows_from(k1),
            scs.len() == block.statements@.len(),
            forall|j: int| 0 <= j < scs.len() ==> scope_pushed(sc0, #[trigger] scs[j], d, n),
            scope_pushed(sc0, k0.scope(), d, n),
            forall|j: int, k: int|
                0 <= j < scs.len() && 0 <= k < scs[j].len() ==> variable_id(#[trigger] scs[j][k]).0
                    < k0.variables().len(),
            forall|j: int|
                0 <= j < block.statements@.len() ==> emitted_binds(
                    #[trigger] block.statements@[j],
                    b.statements@.subrange(
                        total_len(block.statements@.take(j)),
                        total_len(block.statements@.take(j)) + emitted_len(block.statements@[j]),
                    ),
                    scs[j],
                    k0.variables(),
                    k0.strings(),
                    fd,
                ),
            b.ret_stat matches Some(r) ==> block.ret_stat matches Some(q) && exprs_bind(
                q.exprs@,
                r.exprs@,
                k0.scope(),
                k1.variables(),
                k1.strings(),
                fd,
            ),
        ensures
            block_binds(block, b, sc0, d, n, fin.variables(), fin.strings(), fd),
            scopes_within(sc0, scs.push(k0.scope()), d, n, fin.variables()),
            block_binds_with(block, b, scs.push(k0.scope()), sc0, d, n, fin.variables(), fin.strings(), fd),
    {
        let a = block.statements@;
        let scs2 = scs.push(k0.scope());
        Self::lemma_grows_trans(k0, k1, fin);
        assert forall|j: int| 0 <= j < scs2.len() implies scope_pushed(sc0, #[trigger] scs2[j], d, n) by {
            if j < scs.len() {
                assert(scs2[j] == scs[j]);
            }
        }
        assert forall|j: int, k: int|
            0 <= j < scs2.len() && 0 <= k < scs2[j].len() implies variable_id(#[trigger] scs2[j][k]).0
                < fin.variables().len() by {
            if j < scs.len() {
                assert(scs2[j] == scs[j]);
                assert(scs[j][k] == scs2[j][k]);
            } else {
                assert(scs2[j] == k0.scope());
                assert(k0.locals@[k] == scs2[j][k]);
            }
        }
        assert forall|j: int| 0 <= j < a.len() implies emitted_binds(
            #[trigger] a[j],
            b.statements@.subrange(total_len(a.take(j)), total_len(a.take(j)) + emitted_len(a[j])),
            scs2[j],
            fin.variables(),
            fin.strings(),
            fd,
        ) by {
            assert(scs2[j] == scs[j]);
            assert forall|k: int| 0 <= k < scs[j].len() implies variable_id(#[trigger] scs[j][k]).0
                < k0.variables().len() by {}
            Self::lemma_emitted_binds_grown(
                k0,
                fin,
                scs[j],
                fd,
                a[j],
                b.statements@.subrange(total_len(a.take(j)), total_len(a.take(j)) + emitted_len(a[j])),
            );
        }
        if let Some(r) = b.ret_stat {
            assert(forall|k: int| 0 <= k < k0.scope().len() ==> variable_id(#[trigger] k0.scope()[k]).0
                < k1.variables().len());
            Self::lemma_exprs_bind_grown(k1, fin, k0.scope(), fd, block.ret_stat->0.exprs@, r.exprs@);
        }
        assert(scs2[a.len() as int] == k0.scope());
        assert(block_binds_with(block, b, scs2, sc0, d, n, fin.variables(), fin.strings(), fd));
        assert(scopes_within(sc0, scs2, d, n, fin.variables()));
    }

    /// Loop variables stay declared as strings and variables grow
    proof fn lemma_loop_vars_grown(a: &Self, b: &Self, v: Seq<nt::VariableId>, toks: Seq<Token<'a>>)
        requires
            a.wf(),
            b.wf(),
            b.grows_from(a),
            loop_vars_declared(v, toks, a.variables(), a.strings()),
        ensures
            loop_vars_declared(v, toks, b.variables(), b.strings()),
    {
        Self::lemma_grows_extends(a, b);
        assert forall|k: int| 0 <= k < v.len() implies loop_var_declared(
            #[trigger] v[k],
            toks[k],
            k == 0,
            b.variables(),
            b.strings(),
        ) by {
            assert(b.variables()[v[k].0 as int] == a.variables()[v[k].0 as int]);
        }
    }

    /// A nested block's names stay bound as strings and variables grow
    proof fn lemma_nested_binds_grown(
        a: &Self,
        b: &Self,
        sc: Seq<Variable>,
        fd: usize,
        block: ast::Block<'a>,
        nb: nt::Block,
    )
        requires
            a.wf(),
            b.wf(),
            b.grows_from(a),
            nested_binds(block, nb, sc, a.variables(), a.strings(), fd),
        ensures
            nested_binds(block, nb, sc, b.variables(), b.strings(), fd),
        decreases block, 2nat,
    {
        let (d, n, scs) = choose|d: usize, n: nat, scs: Seq<Seq<Variable>>|
            #[trigger] scopes_within(sc, scs, d, n, a.variables()) && block_binds_with(
                block,
                nb,
                scs,
                sc,
                d,
                n,
                a.variables(),
                a.strings(),
                fd,
            );
        assert(scopes_within(sc, scs, d, n, a.variables()));
        assert(block_binds(block, nb, sc, d, n, a.variables(), a.strings(), fd));
        Self::lemma_block_binds_grown(a, b, sc, d, n, fd, block, nb);
        lemma_nested_binds(block, nb, sc, d, n, b.variables(), b.strings(), fd);
    }

    /// A block's names stay bound as strings and variables grow
    proof fn lemma_block_binds_grown(
        a: &Self,
        b: &Self,
        sc0: Seq<Variable>,
        d: usize,
        n: nat,
        fd: usize,
        block: ast::Block<'a>,
        nb: nt::Block,
    )
        requires
            a.wf(),
            b.wf(),
            b.grows_from(a),
            block_binds(block, nb, sc0, d, n, a.variables(), a.strings(), fd),
        ensures
            block_binds(block, nb, sc0, d, n, b.variables(), b.strings(), fd),
        decreases block, 1nat,
    {
        let scs = choose|scs: Seq<Seq<Variable>>|
            #[trigger] scopes_within(sc0, scs, d, n, a.variables()) && block_binds_with(block, nb, scs, sc0, d, n, a.variables(), a.strings(), fd);
        assert(block_binds_with(block, nb, scs, sc0, d, n, a.variables(), a.strings(), fd));
        Self::lemma_block_binds_with_grown(a, b, scs, sc0, d, n, fd, block, nb);
        assert(scopes_within(sc0, scs, d, n, b.variables()));
    }

    /// A block's names stay bound in the same scopes as strings and variables
    /// grow
    proof fn lemma_block_binds_with_grown(
        a: &Self,
        b: &Self,
        scs: Seq<Seq<Variable>>,
        sc0: Seq<Variable>,
        d: usize,
        n: nat,
        fd: usize,
        block: ast::Block<'a>,
        nb: nt::Block,
    )
        requires
            a.wf(),
            b.wf(),
            b.grows_from(a),
            block_binds_with(block, nb, scs, sc0, d, n, a.variables(), a.strings(), fd),
        ensures
            block_binds_with(block, nb, scs, sc0, d, n, b.variables(), b.strings(), fd),
        decreases block, 0nat,
    {
        let x = block.statements@;
        assert forall|j: int, k: int|
            0 <= j < scs.len() && 0 <= k < scs[j].len() implies variable_id(#[trigger] scs[j][k]).0
                < b.variables().len() by {}
        assert forall|j: int| 0 <= j < x.len() implies emitted_binds(
            #[trigger] x[j],
            nb.statements@.subrange(total_len(x.take(j)), total_len(x.take(j)) + emitted_len(x[j])),
            scs[j],
            b.variables(),
            b.strings(),
            fd,
        ) by {
            assert forall|k: int| 0 <= k < scs[j].len() implies variable_id(#[trigger] scs[j][k]).0
                < a.variables().len() by {}
            Self::lemma_emitted_binds_grown(
                a,
                b,
                scs[j],
                fd,
                x[j],
                nb.statements@.subrange(total_len(x.take(j)), total_len(x.take(j)) + emitted_len(x[j])),
            );
        }
        if let Some(r) = nb.ret_stat {
            let l = x.len() as int;
            assert forall|k: int| 0 <= k < scs[l].len() implies variable_id(#[trigger] scs[l][k]).0
                < a.variables().len() by {}
            Self::lemma_exprs_bind_grown(a, b, scs[l], fd, block.ret_stat->0.exprs@, r.exprs@);
        }
        assert(block_binds_with(block, nb, scs, sc0, d, n, b.variables(), b.strings(), fd));
    }

    /// Well-formedness depends on the tables, the scope and its depth only
    proof fn lemma_wf_same_tables(a: &Self, b: &Self)
        requires
            a.wf(),
            b.string_table@ == a.string_table@,
            b.variable_table@ == a.variable_table@,
            b.locals@ == a.locals@,
            b.scope_depth == a.scope_depth,
            b.string_lookup == a.string_lookup,
        ensures
            b.wf(),
    {
    }

    /// A grown resolver's string table extends the old one
    pub proof fn lemma_grows_extends(a: &Self, b: &Self)
        requires
            b.grows_from(a),
        ensures
            extends(a.strings(), b.strings()),
    {
        assert forall|i: int| 0 <= i < a.strings().len() implies #[trigger] b.strings()[i]
            == a.strings()[i] by {
            assert(b.string_table@[i]@ == a.string_table@[i]@);
        }
    }

    /// Strings interned and variables defined are kept
    pub proof fn lemma_grows_trans(a: &Self, b: &Self, c: &Self)
        requires
            b.grows_from(a),
            c.grows_from(b),
        ensures
            c.grows_from(a),
    {
        assert forall|i: int| 0 <= i < a.string_table@.len() implies #[trigger] c.string_table@[i]@
            == a.string_table@[i]@ by {
            assert(b.string_table@[i]@ == a.string_table@[i]@);
        }
        assert forall|i: int| 0 <= i < a.variable_table@.len() implies #[trigger] c.variable_table@[i]
            == a.variable_table@[i] by {
            assert(b.variable_table@[i] == a.variable_table@[i]);
        }
    }

    /// Convert a number token into a number literal
    fn number(&mut self, tok: Token<'a>) -> (res: Result<nt::Number, ResolveError<'a>>)
        ensures
            *final(self) == *old(self),
            res matches Ok(m) ==> number_resolves(tok.value@, m),
            is_float_literal(tok.value@) ==> (res matches Ok(nt::Number::Float(t)) && t@
                == tok.value@),
            !is_float_literal(tok.value@) && is_hex_literal(tok.value@) ==> {
                &&& all_hex_digits(tok.value@.skip(2)) ==> (res matches Ok(nt::Number::Integer(n))
                    && n == hex_number_value(tok.value@.skip(2)) % 0x1_0000_0000_0000_0000)
                &&& !all_hex_digits(tok.value@.skip(2)) ==> res matches Err(
                    ResolveError::InvalidHexDigit,
                )
            },
            !is_float_literal(tok.value@) && !is_hex_literal(tok.value@) ==> {
                &&& is_u64_literal(tok.value@) ==> (res matches Ok(nt::Number::Integer(n)) && n
                    == crate::name_resolution::literal::decimal_value(tok.value@))
                &&& !is_u64_literal(tok.value@) ==> (res matches Ok(nt::Number::Float(t)) && t@
                    == tok.value@)
            },
            res matches Err(e) ==> expression_error(ast::Expression::Number(tok), e),
    {
        let v = tok.value;
        if v.len() >= 2 && v[0] == '0' && (v[1] == 'x' || v[1] == 'X') {
            if contains_char(v, '.') || contains_char(v, 'p') || contains_char(v, 'P') {
                return Ok(nt::Number::Float(vstd::slice::slice_to_vec(v)));
            }
            let digits = &v[2..v.len()];
            assert(digits@ =~= v@.skip(2));
            match hex_int(digits) {
                Some(n) => Ok(nt::Number::Integer(n)),
                None => Err(ResolveError::InvalidHexDigit),
            }
        } else {
            if contains_char(v, '.') || contains_char(v, 'e') || contains_char(v, 'E') {
                return Ok(nt::Number::Float(vstd::slice::slice_to_vec(v)));
            }
            match parse_u64(v) {
                Some(n) => Ok(nt::Number::Integer(n)),
                None => Ok(nt::Number::Float(vstd::slice::slice_to_vec(v))),
            }
        }
    }

    /// Convert a string token into a string literal
    fn string(&mut self, tok: Token<'a>) -> (res: Result<nt::StringId, ResolveError<'a>>)
        requires
            old(self).wf(),
        ensures
            res is Ok ==> old(self).kept(final(self)),
            res is Ok ==> final(self).scope() == old(self).scope(),
            res matches Ok(id) ==> id.0 < final(self).strings().len() && ({
                let text = literal_contents(tok.value@);
                if tok.value@.len() > 0 && tok.value@[0] == '[' {
                    final(self).strings()[id.0 as int] == vstd::utf8::encode_utf8(text)
                } else {
                    unescape(text) == Ok::<Seq<u8>, EscapeError>(final(self).strings()[id.0 as int])
                }
            }),
            unescape(literal_contents(tok.value@)) matches Err(e) ==> !(tok.value@.len() > 0
                && tok.value@[0] == '[') ==> (res matches Err(ResolveError::Escape(e2)) && e2 == e),
            res matches Err(e) ==> table_full(*final(self), e) || expression_error(ast::Expression::String(tok), e),
            res matches Err(e) ==> const_target(*final(self), e),
    {
        let value = string_remove_quotes(tok.value);
        let bytes = if tok.value.len() > 0 && tok.value[0] == '[' {
            chars_to_utf8(value)
        } else {
            match unescape_string(value) {
                Ok(b) => b,
                Err(e) => return Err(ResolveError::Escape(e)),
            }
        };
        let id = self.insert_string(bytes.as_slice())?;
        proof {
            self.lemma_kept_refl();
        }
        Ok(id)
    }

    /// Interning and defining keeps the depths
    proof fn lemma_kept_refl(&self)
        ensures
            self.grows_from(self),
    {
    }
}


impl<'a> Resolver<'a> {
    /// Intern the UTF-8 text of a token
    fn insert_token(&mut self, tok: Token<'a>) -> (res: Result<nt::StringId, ResolveError<'a>>)
        requires
            old(self).wf(),
        ensures
            res is Ok ==> old(self).kept(final(self)),
            res is Ok ==> final(self).variables() == old(self).variables() && final(self).scope()
                == old(self).scope(),
            res matches Ok(id) ==> id.0 < final(self).strings().len() && final(self).strings()[id.0 as int]
                == vstd::utf8::encode_utf8(tok.value@),
            res matches Err(e) ==> table_full(*final(self), e),
            res matches Err(e) ==> const_target(*final(self), e),
            res is Err <==> old(self).strings().len() > u32::MAX,
    {
        let bytes = chars_to_utf8(tok.value);
        self.insert_string(bytes.as_slice())
    }

    /// Resolve a name token
    fn resolve_token(&mut self, tok: Token<'a>) -> (res: Result<ResolveResult, ResolveError<'a>>)
        requires
            old(self).wf(),
        ensures
            res is Ok ==> old(self).kept(final(self)),
            res is Ok ==> final(self).variables() == old(self).variables() && final(self).scope()
                == old(self).scope(),
            res matches Ok(r) ==> ({
                let st = final(self).strings();
                let s = id_of(st, vstd::utf8::encode_utf8(tok.value@));
                let env = id_of(st, environment_name());
                let n = final(self).scope().len() as int;
                let fd = final(self).func_depth();
                match innermost(final(self).scope(), final(self).variables(), s, fd, n) {
                    Some(id) => r == ResolveResult::Local(id),
                    None => r matches ResolveResult::Global { env: e, names } && names@ == seq![s]
                        && Some(e) == innermost(final(self).scope(), final(self).variables(), env, fd, n),
                }
            }),
            res matches Ok(r) ==> result_refs(r, final(self).tables()),
            res is Ok ==> final(self).strings().contains(vstd::utf8::encode_utf8(tok.value@)),
            res matches Err(e) ==> table_full(*final(self), e),
            res matches Err(e) ==> const_target(*final(self), e),
            old(self).strings().len() < u32::MAX ==> res is Ok,
    {
        let bytes = chars_to_utf8(tok.value);
        self.resolve(bytes.as_slice())
    }

    /// Convert a Resolver result into an nt::Var
    fn resolved_var(&mut self, res: ResolveResult) -> (v: nt::Var)
        ensures
            *final(self) == *old(self),
            res matches ResolveResult::Local(id) ==> v == nt::Var::LocalName(id),
            res matches ResolveResult::Global { env, names } ==> v == (nt::Var::GlobalNames {
                env,
                names,
            }),
    {
        match res {
            ResolveResult::Local(variable_id) => nt::Var::LocalName(variable_id),
            ResolveResult::Global { env, names } => nt::Var::GlobalNames { env, names },
        }
    }

    /// Resolve a block.
    #[verifier::spinoff_prover]
    #[verifier::rlimit(50)]
    fn block(&mut self, block: &ast::Block<'a>) -> (res: Result<nt::Block, ResolveError<'a>>)
        requires
            old(self).wf(),
        ensures
            res is Ok ==> old(self).kept(final(self)),
            res is Ok ==> old(self).depth() < usize::MAX,
            res is Ok ==> final(self).scope() == old(self).scope(),
            res matches Ok(b) ==> refs::block_refs(b, final(self).tables()),
            res matches Ok(b) ==> forall|i: int|
                0 <= i < b.close@.len() ==> (#[trigger] b.close@[i] matches nt::Statement::ScopeEnd(
                    v,
                ) && old(self).variables().len() <= v.0 < final(self).variables().len()),
            res matches Ok(b) ==> block_corresponds(*block, b, final(self).strings()),
            res matches Err(e) ==> table_full(*final(self), e) || block_fails(*block, e),
            res matches Err(e) ==> const_target(*final(self), e),
            res matches Ok(b) ==> block_binds(
                *block,
                b,
                old(self).scope(),
                (old(self).depth() + 1) as usize,
                old(self).variables().len(),
                final(self).variables(),
                final(self).strings(),
                old(self).func_depth(),
            ),
            block.statements@.len() == 0 && block.ret_stat is None && old(self).depth() < usize::MAX ==> res is Ok,
        decreases block, 0nat,
    {
        self.scope_enter()?;
        let mut statements = Vec::new();
        proof {
            assert(refs::statements_refs(statements@, self.tables()));
            assert(block.statements@.take(0).len() == 0);
            lemma_pushed_refl(
                old(self).scope(),
                (old(self).depth() + 1) as usize,
                old(self).variables().len(),
            );
        }
        let mut i: usize = 0;
        let ghost mut scs: Seq<Seq<Variable>> = Seq::empty();
        while i < block.statements.len()
            invariant
                scope_pushed(old(self).scope(), self.scope(), (old(self).depth() + 1) as usize, old(self).variables().len()),
                self.wf(),
                self.grows_from(old(self)),
                self.depth() == old(self).depth() + 1,
                self.func_depth() == old(self).func_depth(),
                refs::statements_refs(statements@, self.tables()),
                i <= block.statements@.len(),
                statements@.len() == total_len(block.statements@.take(i as int)),
                forall|j: int|
                    0 <= j < i ==> emits(
                        #[trigger] block.statements@[j],
                        statements@.subrange(
                            total_len(block.statements@.take(j)),
                            total_len(block.statements@.take(j)) + emitted_len(block.statements@[j]),
                        ),
                        self.strings(),
                    ),
                scs.len() == i,
                forall|j: int|
                    0 <= j < i ==> scope_pushed(old(self).scope(), #[trigger] scs[j], (old(self).depth() + 1) as usize, old(self).variables().len()),
                forall|j: int, k: int|
                    0 <= j < i && 0 <= k < scs[j].len() ==> variable_id(#[trigger] scs[j][k]).0 < self.variables().len(),
                forall|j: int|
                    0 <= j < i ==> emitted_binds(
                        #[trigger] block.statements@[j],
                        statements@.subrange(
                            total_len(block.statements@.take(j)),
                            total_len(block.statements@.take(j)) + emitted_len(block.statements@[j]),
                        ),
                        scs[j],
                        self.variables(),
                        self.strings(),
                        old(self).func_depth(),
                    ),
            decreases block.statements.len() - i,
        {
            let ghost before = *self;
            let ghost done = statements@;
            let ghost done_scs = scs;
            proof {
                scs = scs.push(self.scope());
            }
            self.statement(&block.statements[i], &mut statements)?;
            proof {
                Self::lemma_grows_trans(old(self), &before, self);
                Self::lemma_grows_extends(&before, self);
                refs::lemma_appends_refs(done, statements@, before.tables(), self.tables());
                let st = block.statements@[i as int];
                lemma_emits(st, done, statements@, self.variables(), self.strings());
                let seg = statements@.skip(done.len() as int);
                let t = block.statements@;
                assert(t.take(i + 1).drop_last() =~= t.take(i as int));
                assert(t.take(i + 1).last() == st);
                assert forall|j: int|
                    0 <= j < i + 1 implies emits(
                    #[trigger] t[j],
                    statements@.subrange(
                        total_len(t.take(j)),
                        total_len(t.take(j)) + emitted_len(t[j]),
                    ),
                    self.strings(),
                ) by {
                    if j < i {
                        lemma_total_len_prefix(t, j, i as int);
                        assert(statements@.subrange(
                            total_len(t.take(j)),
                            total_len(t.take(j)) + emitted_len(t[j]),
                        ) =~= done.subrange(
                            total_len(t.take(j)),
                            total_len(t.take(j)) + emitted_len(t[j]),
                        ));
                        lemma_emits_extends(
                            t[j],
                            done.subrange(
                                total_len(t.take(j)),
                                total_len(t.take(j)) + emitted_len(t[j]),
                            ),
                            before.strings(),
                            self.strings(),
                        );
                    } else {
                        assert(statements@.subrange(
                            total_len(t.take(j)),
                            total_len(t.take(j)) + emitted_len(t[j]),
                        ) =~= seg);
                    }
                }
                lemma_pushed_trans(
                    old(self).scope(),
                    before.scope(),
                    self.scope(),
                    (old(self).depth() + 1) as usize,
                    old(self).variables().len(),
                    before.variables().len(),
                );
                assert(statements@.len() == total_len(block.statements@.take(i + 1)));
                Self::lemma_binds_step(&before, self, old(self).func_depth(), block.statements@, done, statements@, done_scs, scs, i as int);
            }
            i = i + 1;
        }
        let ghost t0 = self.tables();
        let ghost k0 = *self;
        proof {
            assert(block.statements@.take(i as int) =~= block.statements@);

            assert(stmts_correspond(block.statements@, statements@, self.strings()));
        }
        let ret_stat = match &block.ret_stat {
            Some(s) => {
                let ghost before = *self;
                let r = self.ret_stat(s)?;
                proof {
                    Self::lemma_grows_trans(old(self), &before, self);
                    Self::lemma_grows_extends(&before, self);
                }
                Some(r)
            },
            None => None,
        };
        let ghost t1 = self.tables();
        let ghost k1 = *self;
        let mut close = vec![];
        let ghost before = *self;
        self.scope_leave(&mut close);
        proof {
            Self::lemma_grows_trans(old(self), &before, self);
            Self::lemma_leave(old(self), &before, self);
            assert(close@.skip(0) =~= close@);
            let k = self.scope().len() as int;
            let popped = before.scope().subrange(k, before.scope().len() as int);
            assert forall|j: int| 0 <= j < popped.len() implies old(self).variables().len() <= (
            variable_id(#[trigger] popped[j]).0) < self.variables().len() by {
                assert(popped[j] == before.locals@[k + j]);
            }
            lemma_scope_ends_within(
                popped,
                old(self).variables().len() as int,
                self.variables().len() as int,
            );
            refs::lemma_statements_refs_mono(statements@, t0, self.tables());
            if let Some(r) = &ret_stat {
                refs::lemma_exprs_refs_mono(r.exprs@, t1, self.tables());
            }
            Self::lemma_grows_extends(&k1, self);
            lemma_extends_trans(k0.strings(), k1.strings(), self.strings());
            lemma_stmts_extends(block.statements@, statements@, k0.strings(), self.strings());
            if let Some(r) = &ret_stat {
                lemma_exprs_extends(block.ret_stat->0.exprs@, r.exprs@, k1.strings(), self.strings());
            }
        }
        let b = nt::Block { statements, ret_stat, close };
        proof {
            Self::lemma_block_binds_done(
                &k0,
                &k1,
                self,
                *block,
                b,
                old(self).scope(),
                (old(self).depth() + 1) as usize,
                old(self).variables().len(),
                old(self).func_depth(),
                scs,
            );
        }
        Ok(b)
    }

    /// Resolve a list of expressions
    fn exprs(&mut self, exprs: &Vec<ast::Expression<'a>>) -> (res: Result<
        Vec<nt::Expression>,
        ResolveError<'a>,
    >)
        requires
            old(self).wf(),
        ensures
            res is Ok ==> old(self).kept(final(self)),
            res is Ok ==> final(self).scope() == old(self).scope(),
            res matches Ok(v) ==> v@.len() == exprs@.len(),
            res matches Ok(v) ==> refs::exprs_refs(v@, final(self).tables()),
            res matches Ok(v) ==> exprs_correspond(exprs@, v@, final(self).strings()),
            res matches Err(e) ==> table_full(*final(self), e) || exprs_fail(exprs@, e),
            res matches Err(e) ==> const_target(*final(self), e),
            res matches Ok(v) ==> exprs_bind(exprs@, v@, final(self).scope(), final(self).variables(), final(self).strings(), final(self).func_depth()),
        decreases exprs, 0nat,
    {
        let mut out = Vec::new();
        proof {
            assert(refs::exprs_refs(out@, self.tables()));
        }
        let mut i: usize = 0;
        while i < exprs.len()
            invariant
                self.scope() == old(self).scope(),
                self.wf(),
                old(self).kept(self),
                out@.len() == i,
                i <= exprs@.len(),
                refs::exprs_refs(out@, self.tables()),
                forall|j: int| 0 <= j < i ==> expr_corresponds(#[trigger] exprs@[j], out@[j], self.strings()),
                forall|j: int|
                    0 <= j < i ==> expr_binds(
                        #[trigger] exprs@[j],
                        out@[j],
                        self.scope(),
                        self.variables(),
                        self.strings(),
                        self.func_depth(),
                    ),
            decreases exprs.len() - i,
        {
            let ghost before = *self;
            let e = self.expr(&exprs[i])?;
            proof {
                Self::lemma_grows_trans(old(self), &before, self);
                refs::lemma_exprs_refs_mono(out@, before.tables(), self.tables());
                refs::lemma_exprs_refs_push(out@, e, self.tables());
                Self::lemma_grows_extends(&before, self);
                assert forall|j: int| 0 <= j < i implies expr_corresponds(
                    #[trigger] exprs@[j],
                    out@[j],
                    self.strings(),
                ) by {
                    lemma_expr_extends(exprs@[j], out@[j], before.strings(), self.strings());
                }
                assert forall|j: int| 0 <= j < i implies expr_binds(
                    #[trigger] exprs@[j],
                    out@[j],
                    self.scope(),
                    self.variables(),
                    self.strings(),
                    self.func_depth(),
                ) by {
                    Self::lemma_expr_binds_grown(&before, self, before.scope(), before.func_depth(), exprs@[j], out@[j]);
                }
            }
            out.push(e);
            i = i + 1;
        }
        Ok(out)
    }

    /// Resolve a statement
    fn statement(&mut self, s: &ast::Statement<'a>, out: &mut Vec<nt::Statement>) -> (res: Result<
        (),
        ResolveError<'a>,
    >)
        requires
            old(self).wf(),
        ensures
            res is Ok ==> old(self).kept(final(self)),
            res is Ok ==> scope_pushed(
                old(self).scope(),
                final(self).scope(),
                old(self).depth(),
                old(self).variables().len(),
            ),
            res is Ok ==> refs::appends_refs(old(out)@, final(out)@, final(self).tables()),
            res is Ok && !(s is Declare) && !(s is GlobalCollective) ==> {
                &&& final(out)@.len() == old(out)@.len() + 1
                &&& final(out)@.take(old(out)@.len() as int) == old(out)@
                &&& resolves_to(*s, final(out)@.last(), final(self).strings())
            },
            s is GlobalCollective ==> res is Ok && final(out)@ == old(out)@ && *final(self)
                == *old(self),
            res is Ok && s is Declare ==> declares(
                *s,
                old(out)@,
                final(out)@,
                final(self).variables(),
                final(self).strings(),
            ),
            res is Ok && s is Declare ==> assigns_values(s->Declare_exprs@, final(out)@, final(self).strings()),
            s is Label || s is Break || s is Goto ==> res == Err::<(), ResolveError<'a>>(
                ResolveError::Unsupported,
            ),
            res matches Err(e) ==> table_full(*final(self), e) || stmt_fails(*s, e),
            res matches Err(e) ==> const_target(*final(self), e),
            res is Ok && !(s is Declare) && !(s is GlobalCollective) ==> stmt_binds(*s, final(out)@.last(), old(self).scope(), final(self).variables(), final(self).strings(), old(self).func_depth()),
            res is Ok && s is Declare ==> values_bind(s->Declare_exprs@, final(out)@, old(self).scope(), final(self).variables(), final(self).strings(), old(self).func_depth()),
        decreases s, 1nat,
    {
        proof {
            lemma_pushed_refl(old(self).scope(), old(self).depth(), old(self).variables().len());
        }
        match s {
            ast::Statement::Empty => {
                proof {
                    refs::lemma_appends_one(out@, nt::Statement::Empty, self.tables());
                }
                out.push(nt::Statement::Empty);
                Ok(())
            },
            ast::Statement::Assign { .. } => {
                let st = self.assign(s)?;
                proof {
                    refs::lemma_appends_one(out@, st, self.tables());
                }
                out.push(st);
                Ok(())
            },
            ast::Statement::Call(call) => {
                let c = self.call(call)?;
                let st = nt::Statement::Call(c);
                proof {
                    refs::lemma_appends_one(out@, st, self.tables());
                }
                out.push(st);
                Ok(())
            },
            ast::Statement::Label(_) => Err(ResolveError::Unsupported),
            ast::Statement::Break => Err(ResolveError::Unsupported),
            ast::Statement::Goto(_) => Err(ResolveError::Unsupported),
            ast::Statement::Block(block) => {
                let ghost s0 = *self;
                let b = self.block(block)?;
                let st = nt::Statement::Block(b);
                proof {
                    refs::lemma_appends_one(out@, st, self.tables());
                    lemma_nested_binds(
                        *block,
                        b,
                        s0.scope(),
                        (s0.depth() + 1) as usize,
                        s0.variables().len(),
                        self.variables(),
                        self.strings(),
                        s0.func_depth(),
                    );
                }
                out.push(st);
                Ok(())
            },
            ast::Statement::While { expr, block } => {
                let ghost s0 = *self;
                let expr = self.expr(expr)?;
                let ghost s1 = *self;
                let block = self.block(block)?;
                proof {
                    Self::lemma_grows_trans(&s0, &s1, self);
                    refs::lemma_expression_refs_mono(expr, s1.tables(), self.tables());
                    Self::lemma_grows_extends(&s1, self);
                    lemma_expr_extends(s->While_expr, expr, s1.strings(), self.strings());
                    Self::lemma_expr_binds_grown(&s1, self, s1.scope(), s1.func_depth(), s->While_expr, expr);
                    lemma_nested_binds(
                        s->While_block,
                        block,
                        s1.scope(),
                        (s1.depth() + 1) as usize,
                        s1.variables().len(),
                        self.variables(),
                        self.strings(),
                        s1.func_depth(),
                    );
                }
                let st = nt::Statement::While { expr, block };
                proof {
                    refs::lemma_appends_one(out@, st, self.tables());
                }
                out.push(st);
                Ok(())
            },
            ast::Statement::Repeat { .. } => {
                let st = self.repeat(s)?;
                proof {
                    refs::lemma_appends_one(out@, st, self.tables());
                }
                out.push(st);
                Ok(())
            },
            ast::Statement::If { .. } => {
                let st = self.if_statement(s)?;
                proof {
                    refs::lemma_appends_one(out@, st, self.tables());
                }
                out.push(st);
                Ok(())
            },
            ast::Statement::For { .. } => {
                let st = self.for_loop(s)?;
                proof {
                    refs::lemma_appends_one(out@, st, self.tables());
                }
                out.push(st);
                Ok(())
            },
            ast::Statement::ForEach { .. } => {
                let st = self.for_each(s)?;
                proof {
                    refs::lemma_appends_one(out@, st, self.tables());
                }
                out.push(st);
                Ok(())
            },
            ast::Statement::Function { .. } => {
                let st = self.function_statement(s)?;
                proof {
                    refs::lemma_appends_one(out@, st, self.tables());
                }
                out.push(st);
                Ok(())
            },
            ast::Statement::Declare { .. } => self.declare(s, out),
            ast::Statement::GlobalCollective { .. } => {
                // do nothing, pretend this doesn't exist
                proof {
                    refs::lemma_appends_none(out@, self.tables());
                }
                Ok(())
            },
        }
    }

    /// Resolve an assignment
    #[verifier::loop_isolation(false)]
    fn assign(&mut self, s: &ast::Statement<'a>) -> (res: Result<nt::Statement, ResolveError<'a>>)
        requires
            old(self).wf(),
            s is Assign,
        ensures
            res is Ok ==> old(self).kept(final(self)),
            res is Ok ==> final(self).scope() == old(self).scope(),
            res matches Ok(st) ==> refs::statement_refs(st, final(self).tables()),
            res matches Ok(st) ==> resolves_to(*s, st, final(self).strings()),
            res is Ok ==> forall|i: int|
                0 <= i < s->Assign_vars@.len() ==> (#[trigger] s->Assign_vars@[i] matches ast::Var::Name(
                    t,
                ) ==> !names_const(
                    final(self).scope(),
                    final(self).variables(),
                    final(self).strings(),
                    final(self).func_depth(),
                    vstd::utf8::encode_utf8(t.value@),
                )),
            res matches Err(e) ==> table_full(*final(self), e) || stmt_fails(*s, e),
            res matches Err(e) ==> const_target(*final(self), e),
            res matches Ok(t) ==> stmt_binds(*s, t, old(self).scope(), final(self).variables(), final(self).strings(), old(self).func_depth()),
        decreases s, 0nat,
    {
        let (vars, exps) = match s {
            ast::Statement::Assign { vars, exps } => (vars, exps),
            _ => return Err(ResolveError::Unsupported),
        };
        let exps = self.exprs(exps)?;
        let mut out_vars = Vec::new();
        proof {
            assert(refs::vars_refs(out_vars@, self.tables()));
        }
        let mut i: usize = 0;
        while i < vars.len()
            invariant
                self.scope() == old(self).scope(),
                self.wf(),
                old(self).kept(self),
                refs::vars_refs(out_vars@, self.tables()),
                refs::exprs_refs(exps@, self.tables()),
                out_vars@.len() == i,
                i <= vars@.len(),
                *vars == s->Assign_vars,
                exprs_correspond(s->Assign_exps@, exps@, self.strings()),
                forall|j: int| 0 <= j < i ==> var_corresponds(#[trigger] vars@[j], out_vars@[j], self.strings()),
                exprs_bind(
                    s->Assign_exps@,
                    exps@,
                    self.scope(),
                    self.variables(),
                    self.strings(),
                    self.func_depth(),
                ),
                forall|j: int|
                    0 <= j < i ==> var_binds(
                        #[trigger] vars@[j],
                        out_vars@[j],
                        self.scope(),
                        self.variables(),
                        self.strings(),
                        self.func_depth(),
                    ),
                forall|j: int|
                    0 <= j < i ==> (#[trigger] vars@[j] matches ast::Var::Name(t) ==> {
                        let text = vstd::utf8::encode_utf8(t.value@);
                        &&& self.strings().contains(text)
                        &&& !names_const(
                            self.scope(),
                            self.variables(),
                            self.strings(),
                            self.func_depth(),
                            text,
                        )
                    }),
            decreases vars.len() - i,
        {
            let v = &vars[i];
            let ghost c0 = *self;
            let ghost r1 = *self;
            if let ast::Var::Name(tok) = v {
                let ghost b0 = *self;
                let var = self.resolve_token(*tok)?;
                proof {
                    Self::lemma_grows_trans(old(self), &b0, self);
                    r1 = *self;
                }
                let is_const = match var {
                    ResolveResult::Local(var) => {
                        proof {
                            let st = self.strings();
                            let name = id_of(st, vstd::utf8::encode_utf8(tok.value@));
                            lemma_innermost_entry(
                                self.scope(),
                                self.variables(),
                                name,
                                self.func_depth(),
                                self.scope().len() as int,
                            );
                        }
                        let var = &self.variable_table[var.0 as usize];
                        var.attr_const
                    },
                    ResolveResult::Global { .. } => false,
                };
                if is_const {
                    return Err(ResolveError::AssignToConst(*tok));
                }
                proof {
                    let text = vstd::utf8::encode_utf8(tok.value@);
                    assert(!names_const(
                        self.scope(),
                        self.variables(),
                        self.strings(),
                        self.func_depth(),
                        text,
                    ));
                }
            }
            let ghost b1 = *self;
            let rv = self.var(v)?;
            proof {
                Self::lemma_grows_trans(old(self), &b1, self);
                Self::lemma_kept_refl(&c0);
                Self::lemma_grows_trans(&c0, &b1, self);
                Self::lemma_grows_extends(&c0, self);
                lemma_exprs_extends(s->Assign_exps@, exps@, c0.strings(), self.strings());
                assert forall|j: int| 0 <= j < i implies var_corresponds(
                    #[trigger] vars@[j],
                    out_vars@[j],
                    self.strings(),
                ) by {
                    lemma_var_extends(vars@[j], out_vars@[j], c0.strings(), self.strings());
                }
                Self::lemma_exprs_bind_grown(&c0, self, c0.scope(), c0.func_depth(), s->Assign_exps@, exps@);
                assert forall|j: int| 0 <= j < i implies var_binds(
                    #[trigger] vars@[j],
                    out_vars@[j],
                    self.scope(),
                    self.variables(),
                    self.strings(),
                    self.func_depth(),
                ) by {
                    Self::lemma_var_binds_grown(&c0, self, c0.scope(), c0.func_depth(), vars@[j], out_vars@[j]);
                }
                refs::lemma_vars_refs_mono(out_vars@, c0.tables(), self.tables());
                refs::lemma_exprs_refs_mono(exps@, c0.tables(), self.tables());
                refs::lemma_vars_refs_push(out_vars@, rv, self.tables());
                assert forall|j: int|
                    0 <= j < i + 1 implies (#[trigger] vars@[j] matches ast::Var::Name(t) ==> {
                    let text = vstd::utf8::encode_utf8(t.value@);
                    &&& self.strings().contains(text)
                    &&& !names_const(
                        self.scope(),
                        self.variables(),
                        self.strings(),
                        self.func_depth(),
                        text,
                    )
                }) by {
                    if let ast::Var::Name(t) = vars@[j] {
                        let text = vstd::utf8::encode_utf8(t.value@);
                        if j < i {
                            Self::lemma_names_const_kept(&c0, self, text);
                        } else {
                            Self::lemma_grows_trans(&r1, &b1, self);
                            Self::lemma_names_const_kept(&r1, self, text);
                        }
                    }
                }
            }
            out_vars.push(rv);
            i = i + 1;
        }
        Ok(nt::Statement::Assign { vars: out_vars, exps, is_global_init: false })
    }
}


/// Defining more variables changes no binding of the scope entries below
/// `n`, whose variables were defined already.
proof fn lemma_innermost_stable(
    locals: Seq<Variable>,
    v1: Seq<nt::Local>,
    v2: Seq<nt::Local>,
    s: nt::StringId,
    fd: usize,
    n: int,
)
    requires
        n <= locals.len(),
        forall|j: int| 0 <= j < n ==> variable_id(#[trigger] locals[j]).0 < v1.len(),
        v1.len() <= v2.len(),
        forall|i: int| 0 <= i < v1.len() ==> #[trigger] v2[i] == v1[i],
    ensures
        innermost(locals, v1, s, fd, n) == innermost(locals, v2, s, fd, n),
    decreases n,
{
    if n > 0 {
        assert(variable_id(locals[n - 1]).0 < v1.len());
        lemma_innermost_stable(locals, v1, v2, s, fd, n - 1);
    }
}

/// What a statement appends to the resolved statements, as its resolution
/// states it, is what it resolves to.
proof fn lemma_emits<'a>(
    s: ast::Statement<'a>,
    old: Seq<nt::Statement>,
    out: Seq<nt::Statement>,
    vars: Seq<nt::Local>,
    strings: Seq<Seq<u8>>,
)
    requires
        old.len() <= out.len(),
        out.take(old.len() as int) == old,
        !(s is Declare) && !(s is GlobalCollective) ==> out.len() == old.len() + 1 && resolves_to(
            s,
            out.last(),
            strings,
        ),
        s is GlobalCollective ==> out == old,
        s is Declare ==> declares(s, old, out, vars, strings),
        s is Declare ==> assigns_values(s->Declare_exprs@, out, strings),
    ensures
        emits(s, out.skip(old.len() as int), strings),
{
    let o = old.len() as int;
    let seg = out.skip(o);
    match s {
        ast::Statement::Declare { vis: ast::Visibility::Local, names, exprs } => {
            let k = names.names@.len() as int;
            assert forall|j: int| 0 <= j < k implies (#[trigger] seg[j]) is ScopeStart by {
                assert(seg[j] == out[o + j]);
            }
            if exprs@.len() > 0 {
                assert(seg[k] == out.last());
                let m = vars.len() - k;
                assert forall|j: int| 0 <= j < k implies #[trigger] out.last()->Assign_vars@[j]
                    == nt::Var::LocalName(seg[j]->ScopeStart_0) by {
                    assert(seg[j] == out[o + j]);
                    assert(out[o + j] == nt::Statement::ScopeStart(
                        nt::VariableId((m + (o + j) - o) as u32),
                    ));
                }
            }
        },
        ast::Statement::Declare { vis: ast::Visibility::Global, .. } => {
            if seg.len() > 0 {
                assert(seg[0] == out.last());
            }
        },
        ast::Statement::GlobalCollective { .. } => {},
        _ => {
            assert(seg[0] == out.last());
        },
    }
}

/// The statements before one resolve to no more statements than the
/// statements up to it
proof fn lemma_total_len_prefix<'a>(a: Seq<ast::Statement<'a>>, j: int, i: int)
    requires
        0 <= j < i <= a.len(),
    ensures
        0 <= total_len(a.take(j)),
        total_len(a.take(j)) + emitted_len(a[j]) <= total_len(a.take(i)),
    decreases i,
{
    assert(a.take(j + 1).drop_last() =~= a.take(j));
    assert(a.take(i).drop_last() =~= a.take(i - 1));
    lemma_total_len_nonneg(a.take(j));
    lemma_total_len_nonneg(a.take(i));
    if j + 1 < i {
        lemma_total_len_prefix(a, j, i - 1);
        assert(emitted_len(a[i - 1]) >= 0);
    }
}

/// Statements resolve to no fewer than no statements
proof fn lemma_total_len_nonneg<'a>(a: Seq<ast::Statement<'a>>)
    ensures
        total_len(a) >= 0,
    decreases a.len(),
{
    if a.len() > 0 {
        lemma_total_len_nonneg(a.drop_last());
    }
}

/// A found binding names a variable of one of the scope entries.
pub proof fn lemma_innermost_entry(
    locals: Seq<Variable>,
    vars: Seq<nt::Local>,
    s: nt::StringId,
    fd: usize,
    n: int,
)
    requires
        n <= locals.len(),
    ensures
        innermost(locals, vars, s, fd, n) matches Some(id) ==> exists|j: int|
            0 <= j < n && variable_id(#[trigger] locals[j]) == id,
    decreases n,
{
    if n > 0 && !binds(locals[n - 1], vars, s, fd) {
        lemma_innermost_entry(locals, vars, s, fd, n - 1);
    }
}

/// Whether an attribute token is `const`
fn is_const_attr(v: &[char]) -> (res: bool)
    ensures
        res == (v@ == seq!['c', 'o', 'n', 's', 't']),
{
    let w = ['c', 'o', 'n', 's', 't'];
    assert(w@ =~= seq!['c', 'o', 'n', 's', 't']);
    chars_are(v, &w)
}

/// Whether an attribute token is `close`
fn is_close_attr(v: &[char]) -> (res: bool)
    ensures
        res == (v@ == seq!['c', 'l', 'o', 's', 'e']),
{
    let w = ['c', 'l', 'o', 's', 'e'];
    assert(w@ =~= seq!['c', 'l', 'o', 's', 'e']);
    chars_are(v, &w)
}

impl<'a> Resolver<'a> {
    /// Resolve a repeat statement
    #[verifier::loop_isolation(false)]
    #[verifier::spinoff_prover]
    #[verifier::rlimit(50)]
    fn repeat(&mut self, s: &ast::Statement<'a>) -> (res: Result<nt::Statement, ResolveError<'a>>)
        requires
            old(self).wf(),
            s is Repeat,
        ensures
            res is Ok ==> old(self).kept(final(self)),
            res is Ok ==> final(self).scope() == old(self).scope(),
            res matches Ok(st) ==> refs::statement_refs(st, final(self).tables()),
            res matches Ok(st) ==> resolves_to(*s, st, final(self).strings()),
            res matches Err(e) ==> table_full(*final(self), e) || stmt_fails(*s, e),
            res matches Err(e) ==> const_target(*final(self), e),
            res matches Ok(t) ==> stmt_binds(*s, t, old(self).scope(), final(self).variables(), final(self).strings(), old(self).func_depth()),
        decreases s, 0nat,
    {
        let (block, expr) = match s {
            ast::Statement::Repeat { block, expr } => (block, expr),
            _ => return Err(ResolveError::Unsupported),
        };
        // the scope of the repeat block extends into the controlling expression
        self.scope_enter()?;
        let mut statements = Vec::new();
        proof {
            assert(refs::statements_refs(statements@, self.tables()));
            assert(block.statements@.take(0).len() == 0);
            lemma_pushed_refl(
                old(self).scope(),
                (old(self).depth() + 1) as usize,
                old(self).variables().len(),
            );
        }
        let mut i: usize = 0;
        let ghost mut scs: Seq<Seq<Variable>> = Seq::empty();
        while i < block.statements.len()
            invariant
                scope_pushed(old(self).scope(), self.scope(), (old(self).depth() + 1) as usize, old(self).variables().len()),
                self.wf(),
                self.grows_from(old(self)),
                self.depth() == old(self).depth() + 1,
                self.func_depth() == old(self).func_depth(),
                refs::statements_refs(statements@, self.tables()),
                i <= block.statements@.len(),
                statements@.len() == total_len(block.statements@.take(i as int)),
                forall|j: int|
                    0 <= j < i ==> emits(
                        #[trigger] block.statements@[j],
                        statements@.subrange(
                            total_len(block.statements@.take(j)),
                            total_len(block.statements@.take(j)) + emitted_len(block.statements@[j]),
                        ),
                        self.strings(),
                    ),
                scs.len() == i,
                forall|j: int|
                    0 <= j < i ==> scope_pushed(old(self).scope(), #[trigger] scs[j], (old(self).depth() + 1) as usize, old(self).variables().len()),
                forall|j: int, k: int|
                    0 <= j < i && 0 <= k < scs[j].len() ==> variable_id(#[trigger] scs[j][k]).0 < self.variables().len(),
                forall|j: int|
                    0 <= j < i ==> emitted_binds(
                        #[trigger] block.statements@[j],
                        statements@.subrange(
                            total_len(block.statements@.take(j)),
                            total_len(block.statements@.take(j)) + emitted_len(block.statements@[j]),
                        ),
                        scs[j],
                        self.variables(),
                        self.strings(),
                        old(self).func_depth(),
                    ),
            decreases block.statements.len() - i,
        {
            let ghost before = *self;
            let ghost done = statements@;
            let ghost done_scs = scs;
            proof {
                scs = scs.push(self.scope());
            }
            self.statement(&block.statements[i], &mut statements)?;
            proof {
                Self::lemma_grows_trans(old(self), &before, self);
                Self::lemma_grows_extends(&before, self);
                refs::lemma_appends_refs(done, statements@, before.tables(), self.tables());
                let st = block.statements@[i as int];
                lemma_emits(st, done, statements@, self.variables(), self.strings());
                let seg = statements@.skip(done.len() as int);
                let t = block.statements@;
                assert(t.take(i + 1).drop_last() =~= t.take(i as int));
                assert(t.take(i + 1).last() == st);
                assert forall|j: int|
                    0 <= j < i + 1 implies emits(
                    #[trigger] t[j],
                    statements@.subrange(
                        total_len(t.take(j)),
                        total_len(t.take(j)) + emitted_len(t[j]),
                    ),
                    self.strings(),
                ) by {
                    if j < i {
                        lemma_total_len_prefix(t, j, i as int);
                        assert(statements@.subrange(
                            total_len(t.take(j)),
                            total_len(t.take(j)) + emitted_len(t[j]),
                        ) =~= done.subrange(
                            total_len(t.take(j)),
                            total_len(t.take(j)) + emitted_len(t[j]),
                        ));
                        lemma_emits_extends(
                            t[j],
                            done.subrange(
                                total_len(t.take(j)),
                                total_len(t.take(j)) + emitted_len(t[j]),
                            ),
                            before.strings(),
                            self.strings(),
                        );
                    } else {
                        assert(statements@.subrange(
                            total_len(t.take(j)),
                            total_len(t.take(j)) + emitted_len(t[j]),
                        ) =~= seg);
                    }
                }
                lemma_pushed_trans(
                    old(self).scope(),
                    before.scope(),
                    self.scope(),
                    (old(self).depth() + 1) as usize,
                    old(self).variables().len(),
                    before.variables().len(),
                );
                assert(statements@.len() == total_len(block.statements@.take(i + 1)));
                Self::lemma_binds_step(&before, self, old(self).func_depth(), block.statements@, done, statements@, done_scs, scs, i as int);
            }
            i = i + 1;
        }
        let ghost t0 = self.tables();
        let ghost k0 = *self;
        proof {
            assert(block.statements@.take(i as int) =~= block.statements@);

            assert(stmts_correspond(block.statements@, statements@, self.strings()));
        }
        let ret_stat = match &block.ret_stat {
            Some(r) => {
                let ghost before = *self;
                let r = self.ret_stat(r)?;
                proof {
                    Self::lemma_grows_trans(old(self), &before, self);
                    Self::lemma_grows_extends(&before, self);
                }
                Some(r)
            },
            None => None,
        };
        let ghost t1 = self.tables();
        let ghost k1 = *self;
        let ghost before = *self;
        let expr = self.expr(expr)?;
        proof {
            Self::lemma_grows_trans(old(self), &before, self);
        }
        let ghost t2 = self.tables();
        let ghost k2 = *self;
        let mut leave = vec![];
        let ghost before = *self;
        self.scope_leave(&mut leave);
        proof {
            Self::lemma_grows_trans(old(self), &before, self);
            Self::lemma_leave(old(self), &before, self);
            assert(leave@.skip(0) =~= leave@);
            refs::lemma_statements_refs_mono(statements@, t0, self.tables());
            if let Some(r) = &ret_stat {
                refs::lemma_exprs_refs_mono(r.exprs@, t1, self.tables());
            }
            refs::lemma_expression_refs_mono(expr, t2, self.tables());
            Self::lemma_grows_extends(&k2, self);
            Self::lemma_grows_extends(&k1, &k2);
            lemma_extends_trans(k1.strings(), k2.strings(), self.strings());
            lemma_extends_trans(k0.strings(), k1.strings(), self.strings());
            lemma_stmts_extends(block.statements@, statements@, k0.strings(), self.strings());
            if let Some(r) = &ret_stat {
                lemma_exprs_extends(block.ret_stat->0.exprs@, r.exprs@, k1.strings(), self.strings());
            }
            lemma_expr_extends(s->Repeat_expr, expr, k2.strings(), self.strings());
        }
        let close = vec![];
        proof {
            assert(refs::statements_refs(close@, self.tables()));
        }
        let nb = nt::Block { statements, ret_stat, close };
        proof {
            Self::lemma_block_binds_done(
                &k0,
                &k1,
                self,
                *block,
                nb,
                old(self).scope(),
                (old(self).depth() + 1) as usize,
                old(self).variables().len(),
                old(self).func_depth(),
                scs,
            );
            let scs2 = scs.push(k0.scope());
            let l = block.statements@.len() as int;
            assert(scs2[l] == k0.scope());
            assert forall|k: int| 0 <= k < k0.scope().len() implies variable_id(#[trigger] k0.scope()[k]).0
                < k2.variables().len() by {
                assert(k0.locals@[k] == k0.scope()[k]);
            }
            Self::lemma_expr_binds_grown(&k2, self, k0.scope(), old(self).func_depth(), s->Repeat_expr, expr);
            assert(scopes_within(old(self).scope(), scs2, (old(self).depth() + 1) as usize, old(self).variables().len(), self.variables()));
        }
        Ok(nt::Statement::Repeat { block: nb, expr, block_end: leave })
    }

    /// Resolve an if statement
    #[verifier::loop_isolation(false)]
    #[verifier::spinoff_prover]
    #[verifier::rlimit(40)]
    fn if_statement(&mut self, s: &ast::Statement<'a>) -> (res: Result<nt::Statement, ResolveError<'a>>)
        requires
            old(self).wf(),
            s is If,
        ensures
            res is Ok ==> old(self).kept(final(self)),
            res is Ok ==> final(self).scope() == old(self).scope(),
            res matches Ok(st) ==> refs::statement_refs(st, final(self).tables()),
            res matches Ok(st) ==> resolves_to(*s, st, final(self).strings()),
            res matches Err(e) ==> table_full(*final(self), e) || stmt_fails(*s, e),
            res matches Err(e) ==> const_target(*final(self), e),
            res matches Ok(t) ==> stmt_binds(*s, t, old(self).scope(), final(self).variables(), final(self).strings(), old(self).func_depth()),
        decreases s, 0nat,
    {
        let (expr, block, elseif, else_block) = match s {
            ast::Statement::If { expr, block, elseif, else_block } => (
                expr,
                block,
                elseif,
                else_block,
            ),
            _ => return Err(ResolveError::Unsupported),
        };
        let ghost s0 = *self;
        let expr = self.expr(expr)?;
        let ghost s1 = *self;
        let block = self.block(block)?;
        proof {
            Self::lemma_grows_trans(&s0, &s1, self);
            refs::lemma_expression_refs_mono(expr, s1.tables(), self.tables());
            Self::lemma_grows_extends(&s1, self);
            lemma_expr_extends(s->If_expr, expr, s1.strings(), self.strings());
            Self::lemma_expr_binds_grown(&s1, self, s1.scope(), s1.func_depth(), s->If_expr, expr);
            lemma_nested_binds(
                s->If_block,
                block,
                s1.scope(),
                (s1.depth() + 1) as usize,
                s1.variables().len(),
                self.variables(),
                self.strings(),
                s1.func_depth(),
            );
        }
        let mut branches = Vec::new();
        proof {
            assert(refs::branches_refs(branches@, self.tables()));
        }
        let mut i: usize = 0;
        while i < elseif.len()
            invariant
                self.scope() == old(self).scope(),
                self.wf(),
                old(self).kept(self),
                refs::expression_refs(expr, self.tables()),
                refs::block_refs(block, self.tables()),
                refs::branches_refs(branches@, self.tables()),
                branches@.len() == i,
                i <= elseif@.len(),
                *elseif == s->If_elseif,
                expr_corresponds(s->If_expr, expr, self.strings()),
                expr_binds(
                    s->If_expr,
                    expr,
                    self.scope(),
                    self.variables(),
                    self.strings(),
                    self.func_depth(),
                ),
                forall|j: int|
                    0 <= j < i ==> expr_binds(
                        (#[trigger] elseif@[j]).0,
                        branches@[j].0,
                        self.scope(),
                        self.variables(),
                        self.strings(),
                        self.func_depth(),
                    ),
                block_corresponds(s->If_block, block, self.strings()),
                nested_binds(s->If_block, block, self.scope(), self.variables(), self.strings(), self.func_depth()),
                forall|j: int|
                    0 <= j < i ==> nested_binds(
                        (#[trigger] elseif@[j]).1,
                        branches@[j].1,
                        self.scope(),
                        self.variables(),
                        self.strings(),
                        self.func_depth(),
                    ),
                forall|j: int|
                    0 <= j < i ==> expr_corresponds(
                        (#[trigger] elseif@[j]).0,
                        branches@[j].0,
                        self.strings(),
                    ) && block_corresponds(elseif@[j].1, branches@[j].1, self.strings()),
            decreases elseif.len() - i,
        {
            let ghost b0 = *self;
            let e = self.expr(&elseif[i].0)?;
            let ghost b1 = *self;
            let b = self.block(&elseif[i].1)?;
            proof {
                Self::lemma_grows_trans(&b0, &b1, self);
                Self::lemma_grows_trans(old(self), &b0, self);
                refs::lemma_expression_refs_mono(expr, b0.tables(), self.tables());
                refs::lemma_block_refs_mono(block, b0.tables(), self.tables());
                refs::lemma_branches_refs_mono(branches@, b0.tables(), self.tables());
                refs::lemma_expression_refs_mono(e, b1.tables(), self.tables());
                refs::lemma_branches_refs_push(branches@, (e, b), self.tables());
                Self::lemma_grows_extends(&b0, self);
                Self::lemma_grows_extends(&b1, self);
                lemma_expr_extends(s->If_expr, expr, b0.strings(), self.strings());
                lemma_block_extends(s->If_block, block, b0.strings(), self.strings());
                lemma_expr_extends(elseif@[i as int].0, e, b1.strings(), self.strings());
                Self::lemma_expr_binds_grown(&b0, self, b0.scope(), b0.func_depth(), s->If_expr, expr);
                Self::lemma_expr_binds_grown(&b1, self, b1.scope(), b1.func_depth(), elseif@[i as int].0, e);
                assert forall|j: int| 0 <= j < i implies expr_binds(
                    (#[trigger] elseif@[j]).0,
                    branches@[j].0,
                    self.scope(),
                    self.variables(),
                    self.strings(),
                    self.func_depth(),
                ) by {
                    Self::lemma_expr_binds_grown(&b0, self, b0.scope(), b0.func_depth(), elseif@[j].0, branches@[j].0);
                }
                Self::lemma_nested_binds_grown(&b0, self, b0.scope(), b0.func_depth(), s->If_block, block);
                assert forall|j: int| 0 <= j < i implies nested_binds(
                    (#[trigger] elseif@[j]).1,
                    branches@[j].1,
                    self.scope(),
                    self.variables(),
                    self.strings(),
                    self.func_depth(),
                ) by {
                    Self::lemma_nested_binds_grown(&b0, self, b0.scope(), b0.func_depth(), elseif@[j].1, branches@[j].1);
                }
                lemma_nested_binds(
                    elseif@[i as int].1,
                    b,
                    b1.scope(),
                    (b1.depth() + 1) as usize,
                    b1.variables().len(),
                    self.variables(),
                    self.strings(),
                    b1.func_depth(),
                );
                assert forall|j: int| 0 <= j < i implies expr_corresponds(
                    (#[trigger] elseif@[j]).0,
                    branches@[j].0,
                    self.strings(),
                ) && block_corresponds(elseif@[j].1, branches@[j].1, self.strings()) by {
                    lemma_expr_extends(elseif@[j].0, branches@[j].0, b0.strings(), self.strings());
                    lemma_block_extends(elseif@[j].1, branches@[j].1, b0.strings(), self.strings());
                }
            }
            branches.push((e, b));
            i = i + 1;
        }
        let ghost b2 = *self;
        let else_block = match else_block {
            Some(b) => {
                let ghost b0 = *self;
                let b = self.block(b)?;
                proof {
                    Self::lemma_grows_trans(old(self), &b0, self);
                    lemma_nested_binds(
                        s->If_else_block->0,
                        b,
                        b0.scope(),
                        (b0.depth() + 1) as usize,
                        b0.variables().len(),
                        self.variables(),
                        self.strings(),
                        b0.func_depth(),
                    );
                }
                Some(b)
            },
            None => None,
        };
        proof {
            refs::lemma_expression_refs_mono(expr, b2.tables(), self.tables());
            refs::lemma_block_refs_mono(block, b2.tables(), self.tables());
            refs::lemma_branches_refs_mono(branches@, b2.tables(), self.tables());
            Self::lemma_grows_extends(&b2, self);
            lemma_expr_extends(s->If_expr, expr, b2.strings(), self.strings());
            b2.lemma_kept_refl();
            Self::lemma_expr_binds_grown(&b2, self, b2.scope(), b2.func_depth(), s->If_expr, expr);
            assert forall|j: int| 0 <= j < branches@.len() implies expr_binds(
                (#[trigger] elseif@[j]).0,
                branches@[j].0,
                self.scope(),
                self.variables(),
                self.strings(),
                self.func_depth(),
            ) by {
                Self::lemma_expr_binds_grown(&b2, self, b2.scope(), b2.func_depth(), elseif@[j].0, branches@[j].0);
            }
            Self::lemma_nested_binds_grown(&b2, self, b2.scope(), b2.func_depth(), s->If_block, block);
            assert forall|j: int| 0 <= j < branches@.len() implies nested_binds(
                (#[trigger] elseif@[j]).1,
                branches@[j].1,
                self.scope(),
                self.variables(),
                self.strings(),
                self.func_depth(),
            ) by {
                Self::lemma_nested_binds_grown(&b2, self, b2.scope(), b2.func_depth(), elseif@[j].1, branches@[j].1);
            }
            lemma_block_extends(s->If_block, block, b2.strings(), self.strings());
            assert forall|j: int| 0 <= j < branches@.len() implies expr_corresponds(
                (#[trigger] elseif@[j]).0,
                branches@[j].0,
                self.strings(),
            ) && block_corresponds(elseif@[j].1, branches@[j].1, self.strings()) by {
                lemma_expr_extends(elseif@[j].0, branches@[j].0, b2.strings(), self.strings());
                lemma_block_extends(elseif@[j].1, branches@[j].1, b2.strings(), self.strings());
            }
        }
        Ok(nt::Statement::If { expr, block, elseif: branches, else_block })
    }

    /// Resolve a for loop
    #[verifier::spinoff_prover]
    #[verifier::rlimit(40)]
    fn for_loop(&mut self, s: &ast::Statement<'a>) -> (res: Result<nt::Statement, ResolveError<'a>>)
        requires
            old(self).wf(),
            s is For,
        ensures
            res is Ok ==> old(self).kept(final(self)),
            res is Ok ==> final(self).scope() == old(self).scope(),
            res matches Ok(st) ==> refs::statement_refs(st, final(self).tables()),
            res matches Ok(st) ==> resolves_to(*s, st, final(self).strings()),
            res matches Err(e) ==> table_full(*final(self), e) || stmt_fails(*s, e),
            res matches Err(e) ==> const_target(*final(self), e),
            res matches Ok(t) ==> stmt_binds(*s, t, old(self).scope(), final(self).variables(), final(self).strings(), old(self).func_depth()),
        decreases s, 0nat,
    {
        let (name, initial, limit, step, block) = match s {
            ast::Statement::For { name, initial, limit, step, block } => (
                name,
                initial,
                limit,
                step,
                block,
            ),
            _ => return Err(ResolveError::Unsupported),
        };
        let ghost s0 = *self;
        let initial = self.expr(initial)?;
        let ghost s1 = *self;
        let limit = self.expr(limit)?;
        proof {
            Self::lemma_grows_trans(&s0, &s1, self);
            Self::lemma_grows_extends(&s1, self);
        }
        let ghost s2 = *self;
        let step = match step {
            Some(st) => {
                let ghost b0 = *self;
                let e = self.expr(st)?;
                proof {
                    Self::lemma_grows_trans(&s0, &b0, self);
                    Self::lemma_grows_extends(&b0, self);
                }
                Some(e)
            },
            None => None,
        };
        let ghost b1 = *self;
        self.scope_enter()?;
        let sid = self.insert_token(*name)?;
        let ghost p0 = *self;
        let var = self.push_var(sid, Some(name.line), false, true, None)?;
        proof {
            lemma_pushed_refl(old(self).scope(), (old(self).depth() + 1) as usize, old(self).variables().len());
            lemma_pushed_push(
                old(self).scope(),
                p0.scope(),
                Variable::Var { depth: p0.depth(), id: var, func_depth: None },
                (old(self).depth() + 1) as usize,
                old(self).variables().len(),
            );
        }
        proof {
            Self::lemma_grows_trans(&s0, &b1, self);
            Self::lemma_grows_extends(&b1, self);
        }
        let ghost b2 = *self;
        let block = self.block(block)?;
        proof {
            Self::lemma_grows_trans(&s0, &b2, self);
            Self::lemma_grows_extends(&b2, self);
            lemma_block_binds_widen(
                s->For_block,
                block,
                old(self).scope(),
                b2.scope(),
                (old(self).depth() + 1) as usize,
                old(self).variables().len(),
                (b2.depth() + 1) as usize,
                b2.variables().len(),
                self.variables(),
                self.strings(),
                b2.func_depth(),
            );
            lemma_nested_binds(
                s->For_block,
                block,
                old(self).scope(),
                (old(self).depth() + 1) as usize,
                old(self).variables().len(),
                self.variables(),
                self.strings(),
                b2.func_depth(),
            );
        }
        // leave will only close the loop variable which isn't close
        let ghost b3 = *self;
        let mut discard = vec![];
        self.scope_leave(&mut discard);
        proof {
            Self::lemma_grows_trans(&s0, &b3, self);
            Self::lemma_leave(old(self), &b3, self);
            refs::lemma_expression_refs_mono(initial, s1.tables(), self.tables());
            refs::lemma_expression_refs_mono(limit, s2.tables(), self.tables());
            if let Some(e) = &step {
                refs::lemma_expression_refs_mono(*e, b1.tables(), self.tables());
            }
            refs::lemma_block_refs_mono(block, b3.tables(), self.tables());
            Self::lemma_grows_extends(&b3, self);
            lemma_extends_trans(b2.strings(), b3.strings(), self.strings());
            lemma_extends_trans(b1.strings(), b2.strings(), self.strings());
            lemma_extends_trans(s2.strings(), b1.strings(), self.strings());
            lemma_extends_trans(s1.strings(), s2.strings(), self.strings());
            lemma_expr_extends(s->For_initial, initial, s1.strings(), self.strings());
            lemma_expr_extends(s->For_limit, limit, s2.strings(), self.strings());
            if let Some(e) = &step {
                lemma_expr_extends(s->For_step->0, *e, b1.strings(), self.strings());
            }
            lemma_block_extends(s->For_block, block, b3.strings(), self.strings());
            s2.lemma_kept_refl();
            Self::lemma_grows_trans(&b2, &b3, self);
            Self::lemma_grows_trans(&b1, &b2, self);
            Self::lemma_grows_trans(&s2, &b1, self);
            Self::lemma_grows_trans(&s1, &s2, self);
            Self::lemma_expr_binds_grown(&s1, self, s1.scope(), s1.func_depth(), s->For_initial, initial);
            Self::lemma_expr_binds_grown(&s2, self, s2.scope(), s2.func_depth(), s->For_limit, limit);
            if let Some(e) = &step {
                Self::lemma_expr_binds_grown(&b1, self, b1.scope(), b1.func_depth(), s->For_step->0, *e);
            }
            Self::lemma_nested_binds_grown(&b3, self, old(self).scope(), b2.func_depth(), s->For_block, block);
            assert(self.variables()[var.0 as int] == b2.variables()[var.0 as int]);
            Self::lemma_grows_extends(&p0, self);
            assert(const_loop_var(var, *name, self.variables(), self.strings()));
        }
        Ok(nt::Statement::For { name: var, initial, limit, step, block })
    }

    /// Resolve a for each loop
    fn for_each(&mut self, s: &ast::Statement<'a>) -> (res: Result<nt::Statement, ResolveError<'a>>)
        requires
            old(self).wf(),
            s is ForEach,
        ensures
            res is Ok ==> old(self).kept(final(self)),
            res is Ok ==> final(self).scope() == old(self).scope(),
            res matches Ok(st) ==> refs::statement_refs(st, final(self).tables()),
            res matches Ok(st) ==> resolves_to(*s, st, final(self).strings()),
            res matches Err(e) ==> table_full(*final(self), e) || stmt_fails(*s, e),
            res matches Err(e) ==> const_target(*final(self), e),
            res matches Ok(t) ==> stmt_binds(*s, t, old(self).scope(), final(self).variables(), final(self).strings(), old(self).func_depth()),
        decreases s, 0nat,
    {
        let (names, exprs, block) = match s {
            ast::Statement::ForEach { names, exprs, block } => (names, exprs, block),
            _ => return Err(ResolveError::Unsupported),
        };
        let exprs = self.exprs(exprs)?;
        let ghost b0 = *self;
        self.scope_enter()?;
        proof {
            refs::lemma_exprs_refs_mono(exprs@, b0.tables(), self.tables());
            lemma_pushed_refl(old(self).scope(), (old(self).depth() + 1) as usize, old(self).variables().len());
            Self::lemma_grows_extends(&b0, self);
        }
        let mut vars = Vec::new();
        let mut idx: usize = 0;
        while idx < names.len()
            invariant
                scope_pushed(old(self).scope(), self.scope(), (old(self).depth() + 1) as usize, old(self).variables().len()),
                self.wf(),
                self.grows_from(old(self)),
                self.depth() == old(self).depth() + 1,
                self.func_depth() == old(self).func_depth(),
                refs::ids_below(vars@, self.tables().variables),
                refs::exprs_refs(exprs@, self.tables()),
                extends(b0.strings(), self.strings()),
                self.grows_from(&b0),
                vars@.len() == idx,
                idx <= names@.len(),
                *names == s->ForEach_names,
                forall|k: int|
                    0 <= k < idx ==> loop_var_declared(
                        #[trigger] vars@[k],
                        names@[k],
                        k == 0,
                        self.variables(),
                        self.strings(),
                    ),
            decreases names.len() - idx,
        {
            let ghost c0 = *self;
            let name = names[idx];
            let sid = self.insert_token(name)?;
            let ghost p0 = *self;
            let var = self.push_var(sid, Some(name.line), false, idx == 0, None)?;
            proof {
                lemma_pushed_push(
                    old(self).scope(),
                    p0.scope(),
                    Variable::Var { depth: p0.depth(), id: var, func_depth: None },
                    (old(self).depth() + 1) as usize,
                    old(self).variables().len(),
                );
            }
            proof {
                Self::lemma_grows_trans(old(self), &c0, self);
                refs::lemma_exprs_refs_mono(exprs@, c0.tables(), self.tables());
                Self::lemma_grows_extends(&c0, self);
                lemma_extends_trans(b0.strings(), c0.strings(), self.strings());
                Self::lemma_grows_trans(&b0, &c0, self);
                Self::lemma_grows_extends(&c0, self);
                assert forall|k: int| 0 <= k < idx implies loop_var_declared(
                    #[trigger] vars@[k],
                    names@[k],
                    k == 0,
                    self.variables(),
                    self.strings(),
                ) by {
                    assert(self.variables()[vars@[k].0 as int] == c0.variables()[vars@[k].0 as int]);
                }
                assert(loop_var_declared(var, names@[idx as int], idx == 0, self.variables(), self.strings()));
            }
            vars.push(var);
            idx = idx + 1;
        }
        let ghost b2 = *self;
        let block = self.block(block)?;
        proof {
            Self::lemma_grows_trans(old(self), &b2, self);
            Self::lemma_grows_extends(&b2, self);
            lemma_block_binds_widen(
                s->ForEach_block,
                block,
                old(self).scope(),
                b2.scope(),
                (old(self).depth() + 1) as usize,
                old(self).variables().len(),
                (b2.depth() + 1) as usize,
                b2.variables().len(),
                self.variables(),
                self.strings(),
                b2.func_depth(),
            );
            lemma_nested_binds(
                s->ForEach_block,
                block,
                old(self).scope(),
                (old(self).depth() + 1) as usize,
                old(self).variables().len(),
                self.variables(),
                self.strings(),
                b2.func_depth(),
            );
        }
        let ghost b3 = *self;
        let mut discard = vec![];
        self.scope_leave(&mut discard);
        proof {
            Self::lemma_grows_trans(old(self), &b3, self);
            Self::lemma_leave(old(self), &b3, self);
            refs::lemma_exprs_refs_mono(exprs@, b2.tables(), self.tables());
            refs::lemma_block_refs_mono(block, b3.tables(), self.tables());
            Self::lemma_grows_extends(&b3, self);
            lemma_extends_trans(b2.strings(), b3.strings(), self.strings());
            lemma_extends_trans(b0.strings(), b2.strings(), self.strings());
            lemma_exprs_extends(s->ForEach_exprs@, exprs@, b0.strings(), self.strings());
            lemma_block_extends(s->ForEach_block, block, b3.strings(), self.strings());
            Self::lemma_grows_trans(&b0, &b2, &b3);
            Self::lemma_grows_trans(&b0, &b3, self);
            Self::lemma_exprs_bind_grown(&b0, self, b0.scope(), b0.func_depth(), s->ForEach_exprs@, exprs@);
            Self::lemma_nested_binds_grown(&b3, self, old(self).scope(), b2.func_depth(), s->ForEach_block, block);
            assert(loop_vars_declared(vars@, names@, b2.variables(), b2.strings()));
            Self::lemma_loop_vars_grown(&b2, self, vars@, names@);
        }
        Ok(nt::Statement::ForEach { names: vars, exprs, block })
    }

    /// Resolve a function definition statement
    #[verifier::spinoff_prover]
    #[verifier::rlimit(40)]
    fn function_statement(&mut self, s: &ast::Statement<'a>) -> (res: Result<
        nt::Statement,
        ResolveError<'a>,
    >)
        requires
            old(self).wf(),
            s is Function,
        ensures
            res is Ok ==> old(self).kept(final(self)),
            res is Ok ==> scope_pushed(
                old(self).scope(),
                final(self).scope(),
                old(self).depth(),
                old(self).variables().len(),
            ),
            res matches Ok(st) ==> refs::statement_refs(st, final(self).tables()),
            res matches Ok(t) ==> stmt_binds(*s, t, old(self).scope(), final(self).variables(), final(self).strings(), old(self).func_depth()),
            res matches Ok(st) ==> resolves_to(*s, st, final(self).strings()),
            ({
                let name = s->Function_name;
                let vis = s->Function_vis;
                &&& vis == Some(ast::Visibility::Local) && name.method is Some ==> res
                    == Err::<nt::Statement, ResolveError<'a>>(ResolveError::LocalFunctionMethod)
                &&& vis == Some(ast::Visibility::Local) && name.method is None
                    && name.names@.len() != 1 ==> res == Err::<nt::Statement, ResolveError<'a>>(
                    ResolveError::LocalFunctionPath,
                )
                &&& vis == Some(ast::Visibility::Global) && name.method is Some ==> res
                    == Err::<nt::Statement, ResolveError<'a>>(ResolveError::GlobalFunctionMethod)
                &&& vis == Some(ast::Visibility::Global) && name.method is None
                    && name.names@.len() != 1 ==> res == Err::<nt::Statement, ResolveError<'a>>(
                    ResolveError::GlobalFunctionPath,
                )
                &&& vis is None && name.names@.len() == 0 ==> res == Err::<
                    nt::Statement,
                    ResolveError<'a>,
                >(ResolveError::NoFunctionName)
            }),
            res matches Ok(st) ==> ({
                let name = s->Function_name;
                let vis = s->Function_vis;
                let vs = final(self).variables();
                let strs = final(self).strings();
                let k = name.names@.len() - 1;
                &&& st matches nt::Statement::Function { name: fname, body } && params_declared(
                    body.parameters,
                    vs,
                    strs,
                    s->Function_body.parameters,
                    vis is None && name.method is Some,
                ) && match vis {
                    Some(ast::Visibility::Local) => fname matches nt::FunctionName::DefineLocal {
                        var,
                    } && var.0 < vs.len() && plain_var(
                        vs[var.0 as int],
                        strs,
                        vstd::utf8::encode_utf8(name.names@[0].value@),
                        Some(name.names@[0].line),
                    ),
                    Some(ast::Visibility::Global) => fname is DefineGlobal,
                    None => fname matches nt::FunctionName::Path { start, names: ns, method: m } && k
                        <= ns@.len() <= k + 1 && start_resolves(
                        start,
                        ns@.take(ns@.len() - k),
                        final(self).scope(),
                        vs,
                        strs,
                        final(self).func_depth(),
                        vstd::utf8::encode_utf8(name.names@[0].value@),
                    ) && strings_named(
                        ns@.skip(ns@.len() - k),
                        strs,
                        name.names@.skip(1),
                    ) && (m is Some <==> name.method is Some) && (m matches Some(mid) ==> mid.0
                        < strs.len() && strs[mid.0 as int] == vstd::utf8::encode_utf8(
                        name.method->0.value@,
                    )),
                }
            }),
            res matches Err(e) ==> table_full(*final(self), e) || stmt_fails(*s, e),
            res matches Err(e) ==> const_target(*final(self), e),
        decreases s, 0nat,
    {
        let (name, body, vis) = match s {
            ast::Statement::Function { name, body, vis } => (name, body, vis),
            _ => return Err(ResolveError::Unsupported),
        };
        proof {
            lemma_pushed_refl(old(self).scope(), old(self).depth(), old(self).variables().len());
        }
        let fname = match vis {
            Some(ast::Visibility::Local) => {
                if name.method.is_some() {
                    return Err(ResolveError::LocalFunctionMethod);
                }
                if name.names.len() != 1 {
                    return Err(ResolveError::LocalFunctionPath);
                }
                let n = name.names[0];
                let sid = self.insert_token(n)?;
                let ghost p0 = *self;
                let var = self.push_var(sid, Some(n.line), false, false, None)?;
                proof {
                    lemma_pushed_push(
                        old(self).scope(),
                        p0.scope(),
                        Variable::Var { depth: p0.depth(), id: var, func_depth: None },
                        old(self).depth(),
                        old(self).variables().len(),
                    );
                }
                nt::FunctionName::DefineLocal { var }
            },
            Some(ast::Visibility::Global) => {
                if name.method.is_some() {
                    return Err(ResolveError::GlobalFunctionMethod);
                }
                if name.names.len() != 1 {
                    return Err(ResolveError::GlobalFunctionPath);
                }
                let r = self.resolve_token(name.names[0])?;
                let (env, names) = match r {
                    ResolveResult::Local(id) => (id, vec![]),
                    ResolveResult::Global { env, names } => (env, names),
                };
                nt::FunctionName::DefineGlobal { env, names }
            },
            None => {
                if name.names.len() == 0 {
                    return Err(ResolveError::NoFunctionName);
                }
                let r = self.resolve_token(name.names[0])?;
                let ghost r0 = *self;
                let (start, mut names) = match r {
                    ResolveResult::Local(id) => (id, vec![]),
                    ResolveResult::Global { env, names } => (env, names),
                };
                let ghost base = names@.len() as int;
                let ghost n0 = names@;
                proof {
                    assert(start_resolves(
                        start,
                        n0,
                        r0.scope(),
                        r0.variables(),
                        r0.strings(),
                        r0.func_depth(),
                        vstd::utf8::encode_utf8(name.names@[0].value@),
                    ));
                }
                proof {
                    assert(names@.skip(base) =~= Seq::<nt::StringId>::empty());
                    assert(name.names@.subrange(1, 1) =~= Seq::<Token<'a>>::empty());
                }
                let mut i: usize = 1;
                while i < name.names.len()
                    invariant
                        self.scope() == old(self).scope(),
                        self.wf(),
                        old(self).kept(self),
                        start.0 < self.tables().variables,
                        refs::strings_below(names@, self.tables().strings),
                        1 <= i <= name.names@.len(),
                        s->Function_vis is None,
                        s->Function_name.names@.len() >= 1,
                        0 <= base <= 1,
                        names@.len() == base + i - 1,
                        n0.len() == base,
                        names@.take(base) == n0,
                        self.grows_from(&r0),
                        strings_named(
                            names@.skip(base),
                            self.strings(),
                            name.names@.subrange(1, i as int),
                        ),
                    decreases name.names.len() - i,
                {
                    let ghost c0 = *self;
                    let ghost done = names@;
                    let t = self.insert_token(name.names[i])?;
                    proof {
                        Self::lemma_grows_trans(old(self), &c0, self);
                        Self::lemma_grows_trans(&r0, &c0, self);
                        Self::lemma_grows_keeps(&c0, self);
                    }
                    names.push(t);
                    proof {
                        assert(names@.take(base) =~= done.take(base));
                        assert(names@.skip(base) =~= done.skip(base).push(t));
                        assert(name.names@.subrange(1, i + 1) =~= name.names@.subrange(
                            1,
                            i as int,
                        ).push(name.names@[i as int]));
                        let sk = names@.skip(base);
                        assert forall|j: int| 0 <= j < sk.len() implies (#[trigger] sk[j]).0
                            < self.strings().len() && self.strings()[sk[j].0 as int]
                            == vstd::utf8::encode_utf8(
                            name.names@.subrange(1, i + 1)[j].value@,
                        ) by {
                            if j < sk.len() - 1 {
                                assert(sk[j] == done.skip(base)[j]);
                            }
                        }
                    }
                    i = i + 1;
                }
                proof {
                    assert(name.names@.subrange(1, i as int) =~= name.names@.skip(1));
                }
                let method = match name.method {
                    Some(m) => {
                        let ghost c0 = *self;
                        let t = self.insert_token(m)?;
                        proof {
                            Self::lemma_grows_trans(old(self), &c0, self);
                            Self::lemma_grows_trans(&r0, &c0, self);
                            Self::lemma_grows_keeps(&c0, self);
                        }
                        Some(t)
                    },
                    None => None,
                };
                proof {
                    let e0 = r0.variable_table@[0].name.0 as int;
                    assert(r0.strings()[e0] == environment_name());
                    assert(r0.strings().contains(environment_name()));
                    Self::lemma_binding_kept(&r0, self, environment_name());
                    Self::lemma_binding_kept(
                        &r0,
                        self,
                        vstd::utf8::encode_utf8(name.names@[0].value@),
                    );
                    assert(names@.take(names@.len() - (name.names@.len() - 1)) == n0);
                }
                nt::FunctionName::Path { start, names, method }
            },
        };
        proof {
            assert(refs::function_name_refs(fname, self.tables()));
        }
        let has_self = match &fname {
            nt::FunctionName::Path { method: Some(_), .. } => true,
            _ => false,
        };
        let ghost b0 = *self;
        let body = self.function(body, has_self)?;
        proof {
            assert(scope_pushed(old(self).scope(), b0.scope(), old(self).depth(), old(self).variables().len()));
            lemma_block_binds_widen(
                s->Function_body.body,
                body.body,
                old(self).scope(),
                b0.scope(),
                old(self).depth(),
                old(self).variables().len(),
                (b0.depth() + 1) as usize,
                b0.variables().len(),
                self.variables(),
                self.strings(),
                (b0.func_depth() + 1) as usize,
            );
            lemma_nested_binds(
                s->Function_body.body,
                body.body,
                old(self).scope(),
                old(self).depth(),
                old(self).variables().len(),
                self.variables(),
                self.strings(),
                (old(self).func_depth() + 1) as usize,
            );
            Self::lemma_grows_trans(old(self), &b0, self);
            Self::lemma_grows_keeps(&b0, self);
            if vis is None {
                let e0 = b0.variable_table@[0].name.0 as int;
                assert(b0.strings()[e0] == environment_name());
                Self::lemma_binding_kept(&b0, self, environment_name());
                Self::lemma_binding_kept(&b0, self, vstd::utf8::encode_utf8(name.names@[0].value@));
            }
            assert(refs::function_name_refs(fname, self.tables()));
            match fname {
                nt::FunctionName::DefineLocal { var } => {
                    assert(b0.variable_table@[var.0 as int].name.0 < b0.string_table@.len());
                },
                nt::FunctionName::Path { ref names, .. } => {
                    let k = name.names@.len() - 1;
                    let sk = names@.skip(names@.len() - k);
                    assert forall|j: int| 0 <= j < sk.len() implies (#[trigger] sk[j]).0
                        < self.strings().len() && self.strings()[sk[j].0 as int]
                        == vstd::utf8::encode_utf8(name.names@.skip(1)[j].value@) by {
                        assert(sk[j].0 < b0.strings().len());
                    }
                },
                _ => {},
            }
        }
        Ok(nt::Statement::Function { name: fname, body })
    }

    /// Resolve a return statement
    fn ret_stat(&mut self, ret: &ast::ReturnStatement<'a>) -> (res: Result<
        nt::ReturnStatement,
        ResolveError<'a>,
    >)
        requires
            old(self).wf(),
        ensures
            res is Ok ==> old(self).kept(final(self)),
            res is Ok ==> final(self).scope() == old(self).scope(),
            res matches Ok(r) ==> refs::exprs_refs(r.exprs@, final(self).tables()),
            res matches Ok(r) ==> exprs_correspond(ret.exprs@, r.exprs@, final(self).strings()),
            res matches Err(e) ==> table_full(*final(self), e) || exprs_fail(ret.exprs@, e),
            res matches Err(e) ==> const_target(*final(self), e),
            res matches Ok(r) ==> exprs_bind(ret.exprs@, r.exprs@, final(self).scope(), final(self).variables(), final(self).strings(), final(self).func_depth()),
        decreases ret, 1nat,
    {
        Ok(nt::ReturnStatement { exprs: self.exprs(&ret.exprs)? })
    }

    /// Resolve a declaration statement
    fn declare(&mut self, s: &ast::Statement<'a>, out: &mut Vec<nt::Statement>) -> (res: Result<
        (),
        ResolveError<'a>,
    >)
        requires
            old(self).wf(),
            s is Declare,
        ensures
            res is Ok ==> old(self).kept(final(self)),
            res is Ok ==> scope_pushed(
                old(self).scope(),
                final(self).scope(),
                old(self).depth(),
                old(self).variables().len(),
            ),
            res is Ok ==> refs::appends_refs(old(out)@, final(out)@, final(self).tables()),
            res is Ok ==> declares(*s, old(out)@, final(out)@, final(self).variables(), final(self).strings()),
            res is Ok ==> assigns_values(s->Declare_exprs@, final(out)@, final(self).strings()),
            res matches Err(e) ==> table_full(*final(self), e) || stmt_fails(*s, e),
            res matches Err(e) ==> const_target(*final(self), e),
            res is Ok ==> values_bind(s->Declare_exprs@, final(out)@, old(self).scope(), final(self).variables(), final(self).strings(), old(self).func_depth()),
        decreases s, 0nat,
    {
        let (vis, names, exprs) = match s {
            ast::Statement::Declare { vis, names, exprs } => (vis, names, exprs),
            _ => return Err(ResolveError::Unsupported),
        };
        match vis {
            ast::Visibility::Local => self.declare_local(names, exprs, out),
            ast::Visibility::Global => self.declare_global(names, exprs, out),
        }
    }

    /// Resolve a local variable declaration
    fn declare_local(
        &mut self,
        names: &ast::AttributeNameList<'a>,
        exprs: &Vec<ast::Expression<'a>>,
        out: &mut Vec<nt::Statement>,
    ) -> (res: Result<(), ResolveError<'a>>)
        requires
            old(self).wf(),
        ensures
            res is Ok ==> old(self).kept(final(self)),
            res is Ok ==> scope_pushed(
                old(self).scope(),
                final(self).scope(),
                old(self).depth(),
                old(self).variables().len(),
            ),
            res is Ok ==> refs::appends_refs(old(out)@, final(out)@, final(self).tables()),
            res is Ok ==> declares_locals(
                old(out)@,
                final(out)@,
                final(self).variables(),
                final(self).strings(),
                *names,
                exprs@.len() as int,
            ),
            res is Ok ==> assigns_values(exprs@, final(out)@, final(self).strings()),
            res matches Err(e) ==> table_full(*final(self), e) || local_decl_error(*names, e) || exprs_fail(exprs@, e),
            res matches Err(e) ==> const_target(*final(self), e),
            res is Ok ==> values_bind(exprs@, final(out)@, old(self).scope(), final(self).variables(), final(self).strings(), old(self).func_depth()),
        decreases exprs, 1nat,
    {
        let values = self.exprs(exprs)?;
        let ghost e0 = *self;
        let mut all_const = false;
        let mut all_close = false;
        if let Some(all) = &names.attrib {
            let name = all.name.value;
            if is_const_attr(name) {
                all_const = true;
            } else if is_close_attr(name) {
                all_close = true;
                if names.names.len() > 1 {
                    return Err(ResolveError::CloseOnMany);
                }
            } else {
                return Err(ResolveError::UnknownAttribute(all.name));
            }
        }
        let mut vars = Vec::new();
        let ghost m = self.variables().len() as int;
        let ghost o = out@.len() as int;
        proof {
            refs::lemma_appends_none(out@, self.tables());
            assert(refs::vars_refs(vars@, self.tables()));
            assert(out@.take(o) =~= old(out)@);
            lemma_pushed_refl(old(self).scope(), old(self).depth(), old(self).variables().len());
        }
        let mut i: usize = 0;
        while i < names.names.len()
            invariant
                scope_pushed(old(self).scope(), self.scope(), old(self).depth(), old(self).variables().len()),
                self.wf(),
                old(self).kept(self),
                refs::appends_refs(old(out)@, out@, self.tables()),
                refs::vars_refs(vars@, self.tables()),
                refs::exprs_refs(values@, self.tables()),
                exprs_correspond(exprs@, values@, self.strings()),
                self.grows_from(&e0),
                e0.wf(),
                e0.scope() == old(self).scope(),
                e0.func_depth() == old(self).func_depth(),
                exprs_bind(exprs@, values@, e0.scope(), e0.variables(), e0.strings(), e0.func_depth()),
                i <= names.names@.len(),
                all_const == attr_is_const(names.attrib),
                all_close == attr_is_close(names.attrib),
                self.variables().len() == m + i,
                0 <= m,
                o == old(out)@.len(),
                out@.len() == o + i,
                out@.take(o) == old(out)@,
                vars@.len() == i,
                values@.len() == exprs@.len(),
                forall|j: int| 0 <= j < i ==> attr_known((#[trigger] names.names@[j]).1),
                forall|j: int|
                    o <= j < o + i ==> #[trigger] out@[j] == nt::Statement::ScopeStart(
                        nt::VariableId((m + j - o) as u32),
                    ),
                forall|j: int|
                    0 <= j < i ==> vars@[j] == nt::Var::LocalName(nt::VariableId((m + j) as u32)),
                forall|j: int|
                    0 <= j < i ==> declared_local(
                        self.variables()[m + j],
                        self.strings(),
                        #[trigger] names.names@[j],
                        names.attrib,
                    ),
            decreases names.names.len() - i,
        {
            let (name, attr) = names.names[i];
            let ghost c0 = *self;
            let ghost out0 = out@;
            let sid = self.insert_token(name)?;
            let ghost c1 = *self;
            let mut is_close = all_close;
            let mut is_const = all_const;
            if let Some(attr) = attr {
                let an = attr.name.value;
                if is_const_attr(an) {
                    is_const = true;
                } else if is_close_attr(an) {
                    is_close = true;
                } else {
                    return Err(ResolveError::UnknownAttribute(attr.name));
                }
            }
            let ghost p0 = *self;
            let var = self.push_var(sid, Some(name.line), is_close, is_const, None)?;
            proof {
                lemma_pushed_push(
                    old(self).scope(),
                    p0.scope(),
                    Variable::Var { depth: p0.depth(), id: var, func_depth: None },
                    old(self).depth(),
                    old(self).variables().len(),
                );
            }
            proof {
                Self::lemma_grows_trans(old(self), &c0, self);
                refs::lemma_appends_push(
                    old(out)@,
                    out@,
                    nt::Statement::ScopeStart(var),
                    c0.tables(),
                    self.tables(),
                );
                refs::lemma_vars_refs_mono(vars@, c0.tables(), self.tables());
                refs::lemma_vars_refs_push(vars@, nt::Var::LocalName(var), self.tables());
                refs::lemma_exprs_refs_mono(values@, c0.tables(), self.tables());
                Self::lemma_grows_trans(&c0, &c1, self);
                Self::lemma_grows_extends(&c0, self);
                lemma_exprs_extends(exprs@, values@, c0.strings(), self.strings());
                Self::lemma_grows_trans(&e0, &c0, self);
                assert forall|j: int| 0 <= j < i implies declared_local(
                    self.variables()[m + j],
                    self.strings(),
                    #[trigger] names.names@[j],
                    names.attrib,
                ) by {
                    assert(self.variable_table@[m + j] == c0.variable_table@[m + j]);
                    let n = self.variables()[m + j].name.0 as int;
                    assert(self.string_table@[n]@ == c0.string_table@[n]@);
                }
            }
            out.push(nt::Statement::ScopeStart(var));
            vars.push(nt::Var::LocalName(var));
            proof {
                assert(out@.take(o) =~= out0.take(o));
            }
            i = i + 1;
        }
        proof {
            Self::lemma_exprs_bind_grown(&e0, self, e0.scope(), e0.func_depth(), exprs@, values@);
        }
        if exprs.len() > 0 {
            let st = nt::Statement::Assign { vars, exps: values, is_global_init: false };
            let ghost out0 = out@;
            proof {
                refs::lemma_appends_push(old(out)@, out@, st, self.tables(), self.tables());
            }
            out.push(st);
            proof {
                assert(out@.take(o) =~= out0.take(o));
            }
        }
        Ok(())
    }

    /// Resolve a global variable declaration
    fn declare_global(
        &mut self,
        names: &ast::AttributeNameList<'a>,
        exprs: &Vec<ast::Expression<'a>>,
        out: &mut Vec<nt::Statement>,
    ) -> (res: Result<(), ResolveError<'a>>)
        requires
            old(self).wf(),
        ensures
            res is Ok ==> old(self).kept(final(self)),
            res is Ok ==> scope_pushed(
                old(self).scope(),
                final(self).scope(),
                old(self).depth(),
                old(self).variables().len(),
            ),
            res is Ok ==> refs::appends_refs(old(out)@, final(out)@, final(self).tables()),
            res is Ok ==> declares_globals(old(out)@, final(out)@, *names, exprs@.len() as int),
            res is Ok ==> assigns_values(exprs@, final(out)@, final(self).strings()),
            res matches Err(e) ==> table_full(*final(self), e) || global_decl_error(*names, e) || exprs_fail(exprs@, e),
            res matches Err(e) ==> const_target(*final(self), e),
            res is Ok ==> values_bind(exprs@, final(out)@, old(self).scope(), final(self).variables(), final(self).strings(), old(self).func_depth()),
        decreases exprs, 1nat,
    {
        let values = self.exprs(exprs)?;
        let ghost e0 = *self;
        proof {
            lemma_pushed_refl(old(self).scope(), old(self).depth(), old(self).variables().len());
        }
        if let Some(all) = &names.attrib {
            let name = all.name.value;
            if is_close_attr(name) {
                return Err(ResolveError::GlobalClose);
            } else if !is_const_attr(name) {
                return Err(ResolveError::UnknownAttribute(all.name));
            }
        }
        let mut vars = Vec::new();
        proof {
            assert(refs::vars_refs(vars@, self.tables()));
        }
        let mut i: usize = 0;
        while i < names.names.len()
            invariant
                self.scope() == old(self).scope(),
                self.wf(),
                old(self).kept(self),
                refs::vars_refs(vars@, self.tables()),
                refs::exprs_refs(values@, self.tables()),
                exprs_correspond(exprs@, values@, self.strings()),
                self.grows_from(&e0),
                e0.wf(),
                e0.scope() == old(self).scope(),
                e0.func_depth() == old(self).func_depth(),
                exprs_bind(exprs@, values@, e0.scope(), e0.variables(), e0.strings(), e0.func_depth()),
                i <= names.names@.len(),
                vars@.len() == i,
                values@.len() == exprs@.len(),
                out@ == old(out)@,
                forall|j: int|
                    0 <= j < i ==> attr_known((#[trigger] names.names@[j]).1) && !attr_is_close(
                        names.names@[j].1,
                    ),
            decreases names.names.len() - i,
        {
            let (name, attr) = names.names[i];
            if let Some(attr) = attr {
                let an = attr.name.value;
                if is_close_attr(an) {
                    return Err(ResolveError::GlobalClose);
                } else if !is_const_attr(an) {
                    return Err(ResolveError::UnknownAttribute(attr.name));
                }
            }
            let ghost c0 = *self;
            let r = self.resolve_token(name)?;
            proof {
                Self::lemma_grows_trans(old(self), &c0, self);
                Self::lemma_grows_extends(&c0, self);
                lemma_exprs_extends(exprs@, values@, c0.strings(), self.strings());
                Self::lemma_grows_trans(&e0, &c0, self);
            }
            let v = self.resolved_var(r);
            proof {
                refs::lemma_vars_refs_mono(vars@, c0.tables(), self.tables());
                refs::lemma_vars_refs_push(vars@, v, self.tables());
                refs::lemma_exprs_refs_mono(values@, c0.tables(), self.tables());
            }
            vars.push(v);
            i = i + 1;
        }
        proof {
            Self::lemma_exprs_bind_grown(&e0, self, e0.scope(), e0.func_depth(), exprs@, values@);
        }
        if exprs.len() > 0 {
            let st = nt::Statement::Assign { vars, exps: values, is_global_init: true };
            proof {
                refs::lemma_appends_one(out@, st, self.tables());
            }
            out.push(st);
            proof {
                assert(out@.take(old(out)@.len() as int) =~= old(out)@);
            }
        } else {
            proof {
                refs::lemma_appends_none(out@, self.tables());
                assert(out@.take(old(out)@.len() as int) =~= old(out)@);
            }
        }
        Ok(())
    }

    /// Resolve an expression
    fn expr(&mut self, expr: &ast::Expression<'a>) -> (res: Result<nt::Expression, ResolveError<'a>>)
        requires
            old(self).wf(),
        ensures
            res is Ok ==> old(self).kept(final(self)),
            res is Ok ==> final(self).scope() == old(self).scope(),
            res matches Ok(e) ==> refs::expression_refs(e, final(self).tables()),
            res matches Ok(e) ==> expr_corresponds(*expr, e, final(self).strings()),
            expr is DotDotDot ==> (res matches Ok(e) ==> (e matches nt::Expression::Prefix(
                nt::PrefixExpression::Var(v),
            ) && name_resolves_to(
                *v,
                final(self).scope(),
                final(self).variables(),
                final(self).strings(),
                final(self).func_depth(),
                dots_name(),
            ))),
            expr matches ast::Expression::Nil ==> res == Ok::<nt::Expression, ResolveError<'a>>(
                nt::Expression::Nil,
            ),
            expr matches ast::Expression::False ==> res == Ok::<nt::Expression, ResolveError<'a>>(
                nt::Expression::Bool(false),
            ),
            expr matches ast::Expression::True ==> res == Ok::<nt::Expression, ResolveError<'a>>(
                nt::Expression::Bool(true),
            ),
            res matches Err(e) ==> table_full(*final(self), e) || expr_fails(*expr, e),
            res matches Err(e) ==> const_target(*final(self), e),
            res matches Ok(e) ==> expr_binds(*expr, e, final(self).scope(), final(self).variables(), final(self).strings(), final(self).func_depth()),
        decreases expr, 1nat,
    {
        match expr {
            ast::Expression::Nil => Ok(nt::Expression::Nil),
            ast::Expression::False => Ok(nt::Expression::Bool(false)),
            ast::Expression::True => Ok(nt::Expression::Bool(true)),
            ast::Expression::Number(tok) => Ok(nt::Expression::Number(self.number(*tok)?)),
            ast::Expression::String(tok) => Ok(nt::Expression::String(self.string(*tok)?)),
            ast::Expression::DotDotDot => {
                let dots = vec![0x2Eu8, 0x2Eu8, 0x2Eu8];
                assert(dots@ =~= dots_name());
                let var = self.resolve(dots.as_slice())?;
                let v = self.resolved_var(var);
                proof {
                    assert(refs::var_refs(v, self.tables()));
                }
                let p = nt::PrefixExpression::Var(Box::new(v));
                proof {
                    assert(refs::prefix_refs(p, self.tables()));
                }
                Ok(nt::Expression::Prefix(p))
            },
            ast::Expression::Function(function) => {
                let f = self.function(function, false)?;
                proof {
                    lemma_nested_binds(
                        function.body,
                        f.body,
                        old(self).scope(),
                        (old(self).depth() + 1) as usize,
                        old(self).variables().len(),
                        self.variables(),
                        self.strings(),
                        (old(self).func_depth() + 1) as usize,
                    );
                }
                Ok(nt::Expression::Function(f))
            },
            ast::Expression::Prefix(pre) => Ok(nt::Expression::Prefix(self.prefix(pre)?)),
            ast::Expression::Table(field_list) => Ok(
                nt::Expression::Table(self.field_list(field_list)?),
            ),
            ast::Expression::Binary { left, op, right } => {
                let ghost s0 = *self;
                let l = self.expr(left)?;
                let ghost s1 = *self;
                let r = self.expr(right)?;
                proof {
                    Self::lemma_grows_trans(&s0, &s1, self);
                    refs::lemma_expression_refs_mono(l, s1.tables(), self.tables());
                    Self::lemma_grows_extends(&s1, self);
                    lemma_expr_extends(**left, l, s1.strings(), self.strings());
                    Self::lemma_expr_binds_grown(&s1, self, s1.scope(), s1.func_depth(), **left, l);
                }
                Ok(nt::Expression::Binary { left: Box::new(l), op: *op, right: Box::new(r) })
            },
            ast::Expression::Unary { expr, op } => {
                let e = self.expr(expr)?;
                Ok(nt::Expression::Unary { expr: Box::new(e), op: *op })
            },
        }
    }

    /// Resolve a function expression (lambda)
    #[verifier::spinoff_prover]
    #[verifier::rlimit(40)]
    fn function(&mut self, function: &ast::Function<'a>, has_self: bool) -> (res: Result<
        nt::Function,
        ResolveError<'a>,
    >)
        requires
            old(self).wf(),
        ensures
            res is Ok ==> old(self).depth() < usize::MAX && old(self).func_depth() < usize::MAX,
            res is Ok ==> old(self).kept(final(self)),
            res is Ok ==> final(self).scope() == old(self).scope(),
            res matches Ok(f) ==> refs::function_refs(f, final(self).tables()),
            res matches Ok(f) ==> params_declared(
                f.parameters,
                final(self).variables(),
                final(self).strings(),
                function.parameters,
                has_self,
            ),
            res matches Ok(f) ==> block_corresponds(function.body, f.body, final(self).strings()),
            res matches Ok(f) ==> block_binds(
                function.body,
                f.body,
                old(self).scope(),
                (old(self).depth() + 1) as usize,
                old(self).variables().len(),
                final(self).variables(),
                final(self).strings(),
                (old(self).func_depth() + 1) as usize,
            ),
            res matches Ok(f) ==> ({
                let n = old(self).variables().len() as int;
                let h = if has_self {
                    1int
                } else {
                    0int
                };
                let k = function.parameters.names@.len() as int;
                &&& f.parameters.self_var == if has_self {
                    Some(nt::VariableId(n as u32))
                } else {
                    None
                }
                &&& f.parameters.names@.len() == k
                &&& forall|j: int| 0 <= j < k ==> (#[trigger] f.parameters.names@[j]).0 == n + h + j
                &&& f.parameters.var_name matches Some(v) ==> v.0 == n + h + k
            }),
            res matches Err(e) ==> table_full(*final(self), e) || block_fails(function.body, e),
            res matches Err(e) ==> const_target(*final(self), e),
        decreases function, 1nat,
    {
        self.scope_enter()?;
        if self.function_depth == usize::MAX {
            return Err(ResolveError::TooDeep);
        }
        self.function_depth = self.function_depth + 1;
        proof {
            lemma_pushed_refl(old(self).scope(), (old(self).depth() + 1) as usize, old(self).variables().len());
        }
        let ghost b0 = *self;
        let self_var = if has_self {
            let self_bytes = vec![0x73u8, 0x65u8, 0x6Cu8, 0x66u8];
            assert(self_bytes@ =~= self_name());
            let sid = self.insert_string(self_bytes.as_slice())?;
            let ghost p0 = *self;
            let v = self.push_var(sid, None, false, false, None)?;
            proof {
                lemma_pushed_push(
                    old(self).scope(),
                    p0.scope(),
                    Variable::Var { depth: p0.depth(), id: v, func_depth: None },
                    (old(self).depth() + 1) as usize,
                    old(self).variables().len(),
                );
            }
            Some(v)
        } else {
            None
        };
        proof {
            Self::lemma_grows_trans(old(self), &b0, self);
        }
        let mut names = Vec::new();
        let mut i: usize = 0;
        while i < function.parameters.names.len()
            invariant
                scope_pushed(old(self).scope(), self.scope(), (old(self).depth() + 1) as usize, old(self).variables().len()),
                self.wf(),
                self.grows_from(old(self)),
                self.depth() == old(self).depth() + 1,
                self.func_depth() == old(self).func_depth() + 1,
                self_var matches Some(v) ==> v.0 < self.tables().variables,
                refs::ids_below(names@, self.tables().variables),
                i <= function.parameters.names@.len(),
                names@.len() == i,
                self.variables().len() == old(self).variables().len() + (if has_self {
                    1int
                } else {
                    0int
                }) + i,
                self_var == if has_self {
                    Some(nt::VariableId(old(self).variables().len() as u32))
                } else {
                    None
                },
                forall|j: int|
                    0 <= j < i ==> (#[trigger] names@[j]).0 == old(self).variables().len() + (
                    if has_self {
                        1int
                    } else {
                        0int
                    }) + j,
                self_declared(self_var, self.variables(), self.strings(), has_self),
                names_declared(
                    names@,
                    self.variables(),
                    self.strings(),
                    function.parameters.names@,
                ),
            decreases function.parameters.names.len() - i,
        {
            let name = function.parameters.names[i];
            let ghost c0 = *self;
            let sid = self.insert_token(name)?;
            let ghost c1 = *self;
            let var = self.push_var(sid, Some(name.line), false, false, None)?;
            proof {
                lemma_pushed_push(
                    old(self).scope(),
                    c1.scope(),
                    Variable::Var { depth: c1.depth(), id: var, func_depth: None },
                    (old(self).depth() + 1) as usize,
                    old(self).variables().len(),
                );
            }
            proof {
                Self::lemma_grows_trans(old(self), &c0, self);
                Self::lemma_grows_trans(&c0, &c1, self);
                Self::lemma_grows_keeps(&c0, self);
                Self::lemma_declared_kept(&c0, self, self_var, names@, None, function.parameters, has_self);
            }
            names.push(var);
            i = i + 1;
        }
        let ghost b9 = *self;
        let var_name = match function.parameters.var_name {
            Some(var_arg) => {
                // we have a variadic argument, so create its `...` variable
                let ghost c0 = *self;
                let dots = vec![0x2Eu8, 0x2Eu8, 0x2Eu8];
                assert(dots@ =~= dots_name());
                let sid = self.insert_string(dots.as_slice())?;
                let ghost p0 = *self;
                // `...` is only available directly inside a variadic function
                let var = self.push_var(sid, None, false, false, Some(self.function_depth))?;
                proof {
                    lemma_pushed_push(
                        old(self).scope(),
                        p0.scope(),
                        Variable::Var {
                            depth: p0.depth(),
                            id: var,
                            func_depth: Some(p0.func_depth()),
                        },
                        (old(self).depth() + 1) as usize,
                        old(self).variables().len(),
                    );
                }
                let ghost c2 = *self;
                if let Some(name) = var_arg {
                    // named var arg, also allow accessing the SAME variable through
                    // a different name
                    let ghost c1 = *self;
                    let s2 = self.insert_token(name)?;
                    proof {
                        assert(var.0 < self.variables().len());
                    }
                    let ghost p1 = *self;
                    self.push_alias(s2, var);
                    proof {
                        Self::lemma_grows_trans(&c1, &c1, self);
                        lemma_pushed_push(
                            old(self).scope(),
                            p1.scope(),
                            Variable::Alias { depth: p1.depth(), name: s2, id: var },
                            (old(self).depth() + 1) as usize,
                            old(self).variables().len(),
                        );
                    }
                }
                proof {
                    Self::lemma_grows_trans(old(self), &c0, self);
                    Self::lemma_grows_keeps(&c2, self);
                }
                Some(var)
            },
            None => None,
        };
        proof {
            Self::lemma_grows_keeps(&b9, self);
            Self::lemma_declared_kept(&b9, self, self_var, names@, None, function.parameters, has_self);
        }
        let parameters = nt::ParameterList { self_var, names, var_name };
        let ghost b1 = *self;
        let body = self.block(&function.body)?;
        proof {
            Self::lemma_grows_trans(old(self), &b1, self);
            assert(scope_pushed(old(self).scope(), b1.scope(), (old(self).depth() + 1) as usize, old(self).variables().len()));
            lemma_block_binds_widen(
                function.body,
                body,
                old(self).scope(),
                b1.scope(),
                (old(self).depth() + 1) as usize,
                old(self).variables().len(),
                (b1.depth() + 1) as usize,
                b1.variables().len(),
                self.variables(),
                self.strings(),
                b1.func_depth(),
            );
        }
        // only contains function parameters which cant be <close>
        let ghost b2 = *self;
        let mut discard = vec![];
        self.scope_leave(&mut discard);
        proof {
            Self::lemma_leave(old(self), &b2, self);
        }
        let ghost l1 = *self;
        self.function_depth = self.function_depth - 1;
        proof {
            Self::lemma_wf_same_tables(&l1, self);
            Self::lemma_grows_trans(old(self), &b2, self);
            refs::lemma_block_refs_mono(body, b2.tables(), self.tables());
            Self::lemma_grows_trans(&b1, &b2, self);
            Self::lemma_grows_keeps(&b1, self);
            Self::lemma_declared_kept(
                &b1,
                self,
                self_var,
                names@,
                var_name,
                function.parameters,
                has_self,
            );
            assert(self.wf());
            assert(self.grows_from(old(self)));
            assert(self.depth() == old(self).depth());
            assert(self.func_depth() == old(self).func_depth());
            Self::lemma_block_binds_grown(
                &b2,
                self,
                old(self).scope(),
                (old(self).depth() + 1) as usize,
                old(self).variables().len(),
                b1.func_depth(),
                function.body,
                body,
            );
        }
        Ok(nt::Function { parameters, body })
    }

    /// Resolve a prefix expression
    fn prefix(&mut self, pre: &ast::PrefixExpression<'a>) -> (res: Result<
        nt::PrefixExpression,
        ResolveError<'a>,
    >)
        requires
            old(self).wf(),
        ensures
            res is Ok ==> old(self).kept(final(self)),
            res is Ok ==> final(self).scope() == old(self).scope(),
            res matches Ok(p) ==> refs::prefix_refs(p, final(self).tables()),
            res matches Ok(p) ==> prefix_corresponds(*pre, p, final(self).strings()),
            res matches Err(e) ==> table_full(*final(self), e) || prefix_fails(*pre, e),
            res matches Err(e) ==> const_target(*final(self), e),
            res matches Ok(p) ==> prefix_binds(*pre, p, final(self).scope(), final(self).variables(), final(self).strings(), final(self).func_depth()),
        decreases pre, 1nat,
    {
        match pre {
            ast::PrefixExpression::Var(var) => Ok(nt::PrefixExpression::Var(Box::new(self.var(var)?))),
            ast::PrefixExpression::Call(call) => Ok(nt::PrefixExpression::Call(self.call(call)?)),
            ast::PrefixExpression::Expr(expression) => Ok(
                nt::PrefixExpression::Expr(Box::new(self.expr(expression)?)),
            ),
        }
    }

    /// Resolve a function call
    fn call(&mut self, call: &ast::FunctionCall<'a>) -> (res: Result<nt::FunctionCall, ResolveError<'a>>)
        requires
            old(self).wf(),
        ensures
            res is Ok ==> old(self).kept(final(self)),
            res is Ok ==> final(self).scope() == old(self).scope(),
            res matches Ok(c) ==> refs::call_refs(c, final(self).tables()),
            res matches Ok(c) ==> call_corresponds(*call, c, final(self).strings()),
            res matches Err(e) ==> table_full(*final(self), e) || call_fails(*call, e),
            res matches Err(e) ==> const_target(*final(self), e),
            res matches Ok(c) ==> call_binds(*call, c, final(self).scope(), final(self).variables(), final(self).strings(), final(self).func_depth()),
        decreases call, 1nat,
    {
        let ghost s0 = *self;
        let receiver = self.prefix(&call.receiver)?;
        let ghost s1 = *self;
        let method_name = match call.method_name {
            Some(n) => Some(self.insert_token(n)?),
            None => None,
        };
        proof {
            Self::lemma_grows_trans(&s0, &s1, self);
        }
        let ghost s2 = *self;
        let args = self.args(&call.args)?;
        proof {
            Self::lemma_grows_trans(&s0, &s2, self);
            refs::lemma_prefix_refs_mono(receiver, s1.tables(), self.tables());
            Self::lemma_grows_trans(&s1, &s2, self);
            Self::lemma_grows_extends(&s1, self);
            lemma_prefix_extends(*call.receiver, receiver, s1.strings(), self.strings());
            Self::lemma_prefix_binds_grown(&s1, self, s1.scope(), s1.func_depth(), *call.receiver, receiver);
            Self::lemma_grows_extends(&s2, self);
        }
        Ok(nt::FunctionCall { receiver: Box::new(receiver), method_name, args })
    }

    /// Resolve function arguments
    fn args(&mut self, args: &ast::FunctionArgs<'a>) -> (res: Result<nt::FunctionArgs, ResolveError<'a>>)
        requires
            old(self).wf(),
        ensures
            res is Ok ==> old(self).kept(final(self)),
            res is Ok ==> final(self).scope() == old(self).scope(),
            res matches Ok(a) ==> refs::args_refs(a, final(self).tables()),
            res matches Ok(x) ==> match *args {
                ast::FunctionArgs::Call { exprs } => x matches nt::FunctionArgs::Call { exprs: e }
                    && exprs_correspond(exprs@, e@, final(self).strings()),
                ast::FunctionArgs::Table { table } => x matches nt::FunctionArgs::Table {
                    table: t,
                } && fields_correspond(table.fields@, t.fields@, final(self).strings()),
                ast::FunctionArgs::String { value } => x matches nt::FunctionArgs::String {
                    value: id,
                } && names_text(final(self).strings(), id, value.value@),
            },
            res matches Err(e) ==> table_full(*final(self), e) || args_fail(*args, e),
            res matches Err(e) ==> const_target(*final(self), e),
            res matches Ok(x) ==> match *args {
                ast::FunctionArgs::Call { exprs } => x matches nt::FunctionArgs::Call { exprs: e }
                    && exprs_bind(exprs@, e@, final(self).scope(), final(self).variables(), final(self).strings(), final(self).func_depth()),
                ast::FunctionArgs::Table { table } => x matches nt::FunctionArgs::Table {
                    table: t,
                } && fields_bind(table.fields@, t.fields@, final(self).scope(), final(self).variables(), final(self).strings(), final(self).func_depth()),
                ast::FunctionArgs::String { .. } => true,
            },
        decreases args, 1nat,
    {
        match args {
            ast::FunctionArgs::Call { exprs } => Ok(nt::FunctionArgs::Call { exprs: self.exprs(exprs)? }),
            ast::FunctionArgs::Table { table } => Ok(
                nt::FunctionArgs::Table { table: self.field_list(table)? },
            ),
            ast::FunctionArgs::String { value } => Ok(
                nt::FunctionArgs::String { value: self.insert_token(*value)? },
            ),
        }
    }

    /// Resolve a var expression
    fn var(&mut self, var: &ast::Var<'a>) -> (res: Result<nt::Var, ResolveError<'a>>)
        requires
            old(self).wf(),
        ensures
            res is Ok ==> old(self).kept(final(self)),
            res is Ok ==> final(self).scope() == old(self).scope(),
            res matches Ok(v) ==> refs::var_refs(v, final(self).tables()),
            res matches Ok(v) ==> var_corresponds(*var, v, final(self).strings()),
            res matches Ok(v) ==> match *var {
                ast::Var::Name(tok) => name_resolves_to(
                    v,
                    final(self).scope(),
                    final(self).variables(),
                    final(self).strings(),
                    final(self).func_depth(),
                    vstd::utf8::encode_utf8(tok.value@),
                ),
                ast::Var::Index { .. } => v is Index,
                ast::Var::Dot { name, .. } => v matches nt::Var::Dot { name: n, .. } && n.0
                    < final(self).strings().len() && final(self).strings()[n.0 as int]
                    == vstd::utf8::encode_utf8(name.value@),
            },
            res matches Err(e) ==> table_full(*final(self), e) || var_fails(*var, e),
            res matches Err(e) ==> const_target(*final(self), e),
            res matches Ok(v) ==> var_binds(*var, v, final(self).scope(), final(self).variables(), final(self).strings(), final(self).func_depth()),
        decreases var, 1nat,
    {
        match var {
            ast::Var::Name(token) => {
                let r = self.resolve_token(*token)?;
                Ok(self.resolved_var(r))
            },
            ast::Var::Index { first, index } => {
                let ghost s0 = *self;
                let first = self.prefix(first)?;
                let ghost s1 = *self;
                let index = self.expr(index)?;
                proof {
                    Self::lemma_grows_trans(&s0, &s1, self);
                    refs::lemma_prefix_refs_mono(first, s1.tables(), self.tables());
                    Self::lemma_grows_extends(&s1, self);
                    lemma_prefix_extends(var->Index_first, first, s1.strings(), self.strings());
                    Self::lemma_prefix_binds_grown(&s1, self, s1.scope(), s1.func_depth(), var->Index_first, first);
                }
                Ok(nt::Var::Index { first, index })
            },
            ast::Var::Dot { first, name } => {
                let ghost s0 = *self;
                let first = self.prefix(first)?;
                let ghost s1 = *self;
                let name = self.insert_token(*name)?;
                proof {
                    Self::lemma_grows_trans(&s0, &s1, self);
                    refs::lemma_prefix_refs_mono(first, s1.tables(), self.tables());
                    Self::lemma_grows_extends(&s1, self);
                    lemma_prefix_extends(var->Dot_first, first, s1.strings(), self.strings());
                    Self::lemma_prefix_binds_grown(&s1, self, s1.scope(), s1.func_depth(), var->Dot_first, first);
                }
                Ok(nt::Var::Dot { first, name })
            },
        }
    }

    /// Resolve a table constructor
    fn field_list(&mut self, fields: &ast::FieldList<'a>) -> (res: Result<nt::FieldList, ResolveError<'a>>)
        requires
            old(self).wf(),
        ensures
            res is Ok ==> old(self).kept(final(self)),
            res is Ok ==> final(self).scope() == old(self).scope(),
            res matches Ok(f) ==> refs::field_list_refs(f, final(self).tables()),
            res matches Ok(f) ==> fields_correspond(fields.fields@, f.fields@, final(self).strings()),
            res matches Err(e) ==> table_full(*final(self), e) || fields_fail(fields.fields@, e),
            res matches Err(e) ==> const_target(*final(self), e),
            res matches Ok(f) ==> fields_bind(fields.fields@, f.fields@, final(self).scope(), final(self).variables(), final(self).strings(), final(self).func_depth()),
        decreases fields, 1nat,
    {
        let mut out = Vec::new();
        proof {
            assert(refs::fields_refs(out@, self.tables()));
        }
        let mut i: usize = 0;
        while i < fields.fields.len()
            invariant
                self.scope() == old(self).scope(),
                self.wf(),
                old(self).kept(self),
                refs::fields_refs(out@, self.tables()),
                out@.len() == i,
                i <= fields.fields@.len(),
                forall|j: int|
                    0 <= j < i ==> match #[trigger] fields.fields@[j] {
                        ast::Field::Index { index, expr } => out@[j] matches nt::Field::Index {
                            index: x,
                            expr: y,
                        } && expr_corresponds(index, x, self.strings()) && expr_corresponds(expr, y, self.strings()),
                        ast::Field::Assign { name, expr } => out@[j] matches nt::Field::Assign {
                            name: id,
                            expr: y,
                        } && names_text(self.strings(), id, name.value@) && expr_corresponds(
                            expr,
                            y,
                            self.strings(),
                        ),
                        ast::Field::Exp { expr } => out@[j] matches nt::Field::Exp { expr: y }
                            && expr_corresponds(expr, y, self.strings()),
                    },
                forall|j: int|
                    0 <= j < i ==> field_binds(
                        #[trigger] fields.fields@[j],
                        out@[j],
                        self.scope(),
                        self.variables(),
                        self.strings(),
                        self.func_depth(),
                    ),
            decreases fields.fields.len() - i,
        {
            let ghost c0 = *self;
            let f = match &fields.fields[i] {
                ast::Field::Index { index, expr } => {
                    let ghost d0 = *self;
                    let index = self.expr(index)?;
                    let ghost d1 = *self;
                    let expr = self.expr(expr)?;
                    proof {
                        Self::lemma_grows_trans(&d0, &d1, self);
                        refs::lemma_expression_refs_mono(index, d1.tables(), self.tables());
                        Self::lemma_grows_extends(&d1, self);
                        lemma_expr_extends(fields.fields@[i as int]->Index_index, index, d1.strings(), self.strings());
                        Self::lemma_expr_binds_grown(&d1, self, d1.scope(), d1.func_depth(), fields.fields@[i as int]->Index_index, index);
                    }
                    nt::Field::Index { index, expr }
                },
                ast::Field::Assign { name, expr } => {
                    let ghost d0 = *self;
                    let name = self.insert_token(*name)?;
                    let ghost d1 = *self;
                    let expr = self.expr(expr)?;
                    proof {
                        Self::lemma_grows_trans(&d0, &d1, self);
                        Self::lemma_grows_extends(&d1, self);
                    }
                    nt::Field::Assign { name, expr }
                },
                ast::Field::Exp { expr } => nt::Field::Exp { expr: self.expr(expr)? },
            };
            proof {
                Self::lemma_grows_trans(old(self), &c0, self);
                refs::lemma_fields_refs_mono(out@, c0.tables(), self.tables());
                refs::lemma_fields_refs_push(out@, f, self.tables());
                Self::lemma_grows_extends(&c0, self);
                assert forall|j: int| 0 <= j < i implies match #[trigger] fields.fields@[j] {
                    ast::Field::Index { index, expr } => out@[j] matches nt::Field::Index {
                        index: x,
                        expr: y,
                    } && expr_corresponds(index, x, self.strings()) && expr_corresponds(
                        expr,
                        y,
                        self.strings(),
                    ),
                    ast::Field::Assign { name, expr } => out@[j] matches nt::Field::Assign {
                        name: id,
                        expr: y,
                    } && names_text(self.strings(), id, name.value@) && expr_corresponds(
                        expr,
                        y,
                        self.strings(),
                    ),
                    ast::Field::Exp { expr } => out@[j] matches nt::Field::Exp { expr: y }
                        && expr_corresponds(expr, y, self.strings()),
                } by {
                    match fields.fields@[j] {
                        ast::Field::Index { index, expr } => {
                            lemma_expr_extends(index, out@[j]->Index_index, c0.strings(), self.strings());
                            lemma_expr_extends(expr, out@[j]->Index_expr, c0.strings(), self.strings());
                        },
                        ast::Field::Assign { expr, .. } => {
                            lemma_expr_extends(expr, out@[j]->Assign_expr, c0.strings(), self.strings());
                        },
                        ast::Field::Exp { expr } => {
                            lemma_expr_extends(expr, out@[j]->Exp_expr, c0.strings(), self.strings());
                        },
                    }
                }
                assert forall|j: int| 0 <= j < i implies field_binds(
                    #[trigger] fields.fields@[j],
                    out@[j],
                    self.scope(),
                    self.variables(),
                    self.strings(),
                    self.func_depth(),
                ) by {
                    match fields.fields@[j] {
                        ast::Field::Index { index, expr } => {
                            Self::lemma_expr_binds_grown(&c0, self, c0.scope(), c0.func_depth(), index, out@[j]->Index_index);
                            Self::lemma_expr_binds_grown(&c0, self, c0.scope(), c0.func_depth(), expr, out@[j]->Index_expr);
                        },
                        ast::Field::Assign { expr, .. } => {
                            Self::lemma_expr_binds_grown(&c0, self, c0.scope(), c0.func_depth(), expr, out@[j]->Assign_expr);
                        },
                        ast::Field::Exp { expr } => {
                            Self::lemma_expr_binds_grown(&c0, self, c0.scope(), c0.func_depth(), expr, out@[j]->Exp_expr);
                        },
                    }
                }
            }
            out.push(f);
            i = i + 1;
        }
        Ok(nt::FieldList { fields: out })
    }

    /// Get the resolved tree for the input ast.
    pub fn run(self) -> (res: Result<nt::NameContainer<nt::Block>, ResolveError<'a>>)
        requires
            self.wf(),
        ensures
            res matches Ok(c) ==> {
                let st = table_strings(c.string_table@);
                &&& Some(c.env) == innermost(
                    self.scope(),
                    self.variables(),
                    id_of(self.strings(), environment_name()),
                    self.func_depth(),
                    self.scope().len() as int,
                )
                &&& self.strings().len() <= st.len()
                &&& forall|i: int| 0 <= i < self.strings().len() ==> #[trigger] st[i] == self.strings()[i]
                &&& self.variables().len() <= c.variable_table@.len()
                &&& forall|i: int|
                    0 <= i < self.variables().len() ==> #[trigger] c.variable_table@[i]
                        == self.variables()[i]
                &&& c.label_table@.len() == 0
                &&& refs::container_refs(c)
                &&& forall|i: int|
                    0 <= i < c.tree.close@.len() ==> (#[trigger] c.tree.close@[i] matches nt::Statement::ScopeEnd(
                        v,
                    ) && self.variables().len() <= v.0 < c.variable_table@.len())
                &&& block_corresponds(self.syntax(), c.tree, table_strings(c.string_table@))
                &&& block_binds(
                    self.syntax(),
                    c.tree,
                    self.scope(),
                    (self.depth() + 1) as usize,
                    self.variables().len(),
                    c.variable_table@,
                    table_strings(c.string_table@),
                    self.func_depth(),
                )
            },
            res matches Err(e) ==> block_fails(self.syntax(), e) || e is TooManyStrings
                || e is TooManyVariables || e is TooDeep,
            self.syntax().statements@.len() == 0 && self.syntax().ret_stat is None
                && self.strings().len() < u32::MAX && self.depth() < usize::MAX ==> res is Ok,
    {
        let mut this = self;
        let env_bytes = environment();
        let r = this.resolve(env_bytes.as_slice())?;
        proof {
            let k = self.variable_table@[0].name.0 as int;
            assert(self.strings()[k] == environment_name());
            self.lemma_id_of(environment_name(), k);
            assert(this.strings()[k] == environment_name());
            this.lemma_id_of(environment_name(), k);
        }
        let ghost after_env = this;
        let env = match r {
            ResolveResult::Local(env) => env,
            ResolveResult::Global { .. } => return Err(ResolveError::Unsupported),
        };
        let ast = this.ast;
        let tree = this.block(ast)?;
        proof {
            Self::lemma_grows_trans(&self, &after_env, &this);

            assert forall|i: int| 0 <= i < self.strings().len() implies #[trigger] table_strings(
                this.string_table@,
            )[i] == self.strings()[i] by {
                assert(this.string_table@[i]@ == self.string_table@[i]@);
            }
        }
        let ghost t = this.tables();
        let c = nt::NameContainer {
            tree,
            string_table: this.string_table,
            variable_table: this.variable_table,
            label_table: Vec::new(),
            env,
        };
        proof {
            assert(t == refs::container_tables(c));
        }
        Ok(c)
    }
}

} // verus!
