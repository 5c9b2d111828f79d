use typed_lua::name_resolution::literal::EscapeError;
use typed_lua::name_resolution::name_tree::{
    Expression, Field, FunctionArgs, Number, PrefixExpression, Statement, StringId, Var, VariableId,
};
use typed_lua::name_resolution::name_tree_refs::check_container;
use typed_lua::name_resolution::{ResolveError, Resolver};
use typed_lua::parser::lexer::Lexer;
use typed_lua::parser::Parser;

fn chars(s: &str) -> Vec<char> {
    s.chars().collect()
}

#[test]
fn return_of_a_literal() {
    let src = chars("return 1");
    let block = Parser::new(Lexer::new(&src)).unwrap().file().unwrap();
    let c = Resolver::new(&block).run().unwrap();
    assert_eq!(c.env, VariableId(0));
    assert_eq!(c.string_table, vec![b"_ENV".to_vec()]);
    assert_eq!(c.variable_table.len(), 1);
    assert_eq!(c.variable_table[0].name, StringId(0));
    assert!(c.label_table.is_empty());
    assert!(c.tree.statements.is_empty());
    assert!(c.tree.close.is_empty());
    let ret = c.tree.ret_stat.unwrap();
    assert_eq!(ret.exprs.len(), 1);
    assert!(matches!(ret.exprs[0], Expression::Number(Number::Integer(1))));
}

#[test]
fn local_variables_get_new_ids_and_scopes() {
    let src = chars("local x = 1 return x");
    let block = Parser::new(Lexer::new(&src)).unwrap().file().unwrap();
    let c = Resolver::new(&block).run().unwrap();
    assert_eq!(c.variable_table.len(), 2);
    let name = c.variable_table[1].name;
    assert_eq!(c.string_table[name.0 as usize], b"x".to_vec());
    assert_eq!(c.variable_table[1].line, Some(1));
    assert!(!c.variable_table[1].attr_const);
    assert_eq!(c.tree.statements.len(), 2);
    assert!(matches!(c.tree.statements[0], Statement::ScopeStart(VariableId(1))));
    match &c.tree.statements[1] {
        Statement::Assign { vars, exps, is_global_init } => {
            assert!(!is_global_init);
            assert_eq!(vars.len(), 1);
            assert!(matches!(vars[0], Var::LocalName(VariableId(1))));
            assert!(matches!(exps[0], Expression::Number(Number::Integer(1))));
        }
        other => panic!("unexpected {:?}", other),
    }
    let ret = c.tree.ret_stat.as_ref().unwrap();
    match &ret.exprs[0] {
        Expression::Prefix(PrefixExpression::Var(v)) => assert!(matches!(**v, Var::LocalName(VariableId(1)))),
        other => panic!("unexpected {:?}", other),
    }
    assert_eq!(c.tree.close.len(), 1);
    assert!(matches!(c.tree.close[0], Statement::ScopeEnd(VariableId(1))));
}

#[test]
fn globals_resolve_through_the_environment() {
    let src = chars("y = 2");
    let block = Parser::new(Lexer::new(&src)).unwrap().file().unwrap();
    let c = Resolver::new(&block).run().unwrap();
    match &c.tree.statements[0] {
        Statement::Assign { vars, .. } => match &vars[0] {
            Var::GlobalNames { env, names } => {
                assert_eq!(*env, VariableId(0));
                assert_eq!(names.len(), 1);
                assert_eq!(c.string_table[names[0].0 as usize], b"y".to_vec());
            }
            other => panic!("unexpected {:?}", other),
        },
        other => panic!("unexpected {:?}", other),
    }
}

#[test]
fn strings_are_interned_once() {
    let src = chars("return 'a', \"a\", [[a]], 'b'");
    let block = Parser::new(Lexer::new(&src)).unwrap().file().unwrap();
    let c = Resolver::new(&block).run().unwrap();
    assert_eq!(c.string_table, vec![b"_ENV".to_vec(), b"a".to_vec(), b"b".to_vec()]);
    let ret = c.tree.ret_stat.unwrap();
    let ids: Vec<StringId> = ret
        .exprs
        .iter()
        .map(|e| match e {
            Expression::String(s) => *s,
            other => panic!("unexpected {:?}", other),
        })
        .collect();
    assert_eq!(ids, vec![StringId(1), StringId(1), StringId(1), StringId(2)]);
}

#[test]
fn escapes_are_processed_in_short_strings_only() {
    let src = chars("return '\\65', [[\\65]]");
    let block = Parser::new(Lexer::new(&src)).unwrap().file().unwrap();
    let c = Resolver::new(&block).run().unwrap();
    assert_eq!(c.string_table[1], b"A".to_vec());
    assert_eq!(c.string_table[2], b"\\65".to_vec());
}

#[test]
fn numbers_are_converted() {
    let src = chars("return 0x10, 42, 1.5, 18446744073709551616");
    let block = Parser::new(Lexer::new(&src)).unwrap().file().unwrap();
    let c = Resolver::new(&block).run().unwrap();
    let ret = c.tree.ret_stat.unwrap();
    assert!(matches!(ret.exprs[0], Expression::Number(Number::Integer(16))));
    assert!(matches!(ret.exprs[1], Expression::Number(Number::Integer(42))));
    match &ret.exprs[2] {
        Expression::Number(Number::Float(t)) => assert_eq!(t, &chars("1.5")),
        other => panic!("unexpected {:?}", other),
    }
    match &ret.exprs[3] {
        Expression::Number(Number::Float(t)) => assert_eq!(t, &chars("18446744073709551616")),
        other => panic!("unexpected {:?}", other),
    }
}

#[test]
fn assigning_a_constant_is_an_error() {
    let src = chars("local x <const> = 1 x = 2");
    let block = Parser::new(Lexer::new(&src)).unwrap().file().unwrap();
    match Resolver::new(&block).run() {
        Err(ResolveError::AssignToConst(tok)) => assert_eq!(tok.value, &['x']),
        other => panic!("unexpected {:?}", other),
    }
}

#[test]
fn bad_escape_is_an_error() {
    let src = chars("return '\\q'");
    let block = Parser::new(Lexer::new(&src)).unwrap().file().unwrap();
    assert!(matches!(
        Resolver::new(&block).run(),
        Err(ResolveError::Escape(EscapeError::UnknownEscape('q')))
    ));
}

#[test]
fn goto_is_not_supported() {
    let src = chars("goto x");
    let block = Parser::new(Lexer::new(&src)).unwrap().file().unwrap();
    assert!(matches!(Resolver::new(&block).run(), Err(ResolveError::Unsupported)));
}

#[test]
fn inner_blocks_close_their_variables() {
    let src = chars("do local a, b = 1 end");
    let block = Parser::new(Lexer::new(&src)).unwrap().file().unwrap();
    let c = Resolver::new(&block).run().unwrap();
    match &c.tree.statements[0] {
        Statement::Block(b) => {
            assert_eq!(b.close.len(), 2);
            assert!(matches!(b.close[0], Statement::ScopeEnd(VariableId(2))));
            assert!(matches!(b.close[1], Statement::ScopeEnd(VariableId(1))));
        }
        other => panic!("unexpected {:?}", other),
    }
}

#[test]
fn functions_bind_their_parameters() {
    let src = chars("local function f(a) return a end");
    let block = Parser::new(Lexer::new(&src)).unwrap().file().unwrap();
    let c = Resolver::new(&block).run().unwrap();
    let names: Vec<Vec<u8>> = c
        .variable_table
        .iter()
        .map(|v| c.string_table[v.name.0 as usize].clone())
        .collect();
    assert_eq!(names, vec![b"_ENV".to_vec(), b"f".to_vec(), b"a".to_vec()]);
}

#[test]
fn every_resolved_id_refers_to_a_table_entry() {
    let src = chars(
        "local a <const> = 1\n\
         local function f(x, ...) local y = x + a return y, ... end\n\
         g = { f(2), k = \"s\", [3] = 4 }\n\
         for i = 1, 3 do g[i] = i end\n\
         for k, v in pairs(g) do print(k, v) end\n\
         repeat local z = 1 until z\n\
         if a then b = 1 elseif c then b = 2 else b = 3 end\n\
         function g.h:m(p) return self, p end\n\
         return f",
    );
    let block = Parser::new(Lexer::new(&src)).unwrap().file().unwrap();
    let c = Resolver::new(&block).run().unwrap();
    assert!(check_container(&c));
}

fn resolve_err(text: &str) -> String {
    let src = chars(text);
    let block = Parser::new(Lexer::new(&src)).unwrap().file().unwrap();
    match Resolver::new(&block).run() {
        Err(e) => format!("{:?}", e),
        Ok(_) => String::from("ok"),
    }
}

#[test]
fn local_attributes_set_const_and_close() {
    let src = chars("local a <const>, b <close> = 1, 2");
    let block = Parser::new(Lexer::new(&src)).unwrap().file().unwrap();
    let c = Resolver::new(&block).run().unwrap();
    assert_eq!(c.variable_table.len(), 3);
    assert!(c.variable_table[1].attr_const && !c.variable_table[1].attr_close);
    assert!(!c.variable_table[2].attr_const && c.variable_table[2].attr_close);
    assert_eq!(c.string_table[c.variable_table[2].name.0 as usize], b"b".to_vec());
    assert!(matches!(c.tree.statements[0], Statement::ScopeStart(VariableId(1))));
    assert!(matches!(c.tree.statements[1], Statement::ScopeStart(VariableId(2))));
    match &c.tree.statements[2] {
        Statement::Assign { vars, exps, is_global_init } => {
            assert!(!is_global_init);
            assert_eq!(exps.len(), 2);
            assert!(matches!(vars[0], Var::LocalName(VariableId(1))));
            assert!(matches!(vars[1], Var::LocalName(VariableId(2))));
        }
        other => panic!("unexpected {:?}", other),
    }
}

#[test]
fn declaration_attribute_errors() {
    assert_eq!(resolve_err("local <close> a, b = 1, 2"), "CloseOnMany");
    assert!(resolve_err("local x <foo> = 1").starts_with("UnknownAttribute"));
    assert_eq!(resolve_err("global <close> x"), "GlobalClose");
    assert_eq!(resolve_err("global x <close>"), "GlobalClose");
}

#[test]
fn function_name_errors() {
    assert_eq!(resolve_err("local function a.b() end"), "LocalFunctionPath");
    assert_eq!(resolve_err("local function a:b() end"), "LocalFunctionMethod");
    assert_eq!(resolve_err("global function a.b() end"), "GlobalFunctionPath");
    assert_eq!(resolve_err("global function a:b() end"), "GlobalFunctionMethod");
}

#[test]
fn methods_bind_self_and_varargs() {
    let src = chars("function t.u:m(x, ...) end");
    let block = Parser::new(Lexer::new(&src)).unwrap().file().unwrap();
    let c = Resolver::new(&block).run().unwrap();
    let text = |id: typed_lua::name_resolution::name_tree::VariableId| {
        c.string_table[c.variable_table[id.0 as usize].name.0 as usize].clone()
    };
    match &c.tree.statements[0] {
        Statement::Function { body, .. } => {
            let p = &body.parameters;
            assert_eq!(text(p.self_var.unwrap()), b"self".to_vec());
            assert_eq!(p.names.len(), 1);
            assert_eq!(text(p.names[0]), b"x".to_vec());
            assert_eq!(text(p.var_name.unwrap()), b"...".to_vec());
            assert_eq!(c.variable_table[p.names[0].0 as usize].line, Some(1));
            assert_eq!(c.variable_table[p.self_var.unwrap().0 as usize].line, None);
        }
        other => panic!("unexpected {:?}", other),
    }
}

#[test]
fn leaving_a_block_restores_outer_bindings() {
    let src = chars("local x = 1 do local x = 2 end return x");
    let block = Parser::new(Lexer::new(&src)).unwrap().file().unwrap();
    let c = Resolver::new(&block).run().unwrap();
    let ret = c.tree.ret_stat.as_ref().unwrap();
    match &ret.exprs[0] {
        Expression::Prefix(PrefixExpression::Var(v)) => assert!(matches!(**v, Var::LocalName(VariableId(1)))),
        other => panic!("unexpected {:?}", other),
    }
    match &c.tree.statements[2] {
        Statement::Block(b) => {
            assert_eq!(b.close.len(), 1);
            assert!(matches!(b.close[0], Statement::ScopeEnd(VariableId(2))));
        }
        other => panic!("unexpected {:?}", other),
    }
}

#[test]
fn names_outside_every_block_are_globals() {
    let src = chars("do local y = 1 end return y");
    let block = Parser::new(Lexer::new(&src)).unwrap().file().unwrap();
    let c = Resolver::new(&block).run().unwrap();
    let ret = c.tree.ret_stat.as_ref().unwrap();
    match &ret.exprs[0] {
        Expression::Prefix(PrefixExpression::Var(v)) => match &**v {
            Var::GlobalNames { env, names } => {
                assert_eq!(*env, VariableId(0));
                assert_eq!(c.string_table[names[0].0 as usize], b"y".to_vec());
            }
            other => panic!("unexpected {:?}", other),
        },
        other => panic!("unexpected {:?}", other),
    }
}

#[test]
fn assigning_a_shadowing_local_of_a_constant_is_allowed() {
    assert_eq!(resolve_err("local x <const> = 1 do local x = 2 x = 3 end"), "ok");
    assert!(resolve_err("local x <const> = 1 do x = 3 end").starts_with("AssignToConst"));
}

#[test]
fn field_dot_and_method_names_are_interned() {
    let src = chars("local t = {k = 1} return t.f, t:m 's'");
    let block = Parser::new(Lexer::new(&src)).unwrap().file().unwrap();
    let c = Resolver::new(&block).run().unwrap();
    let text = |id: StringId| String::from_utf8(c.string_table[id.0 as usize].clone()).unwrap();
    match &c.tree.statements[1] {
        Statement::Assign { exps, .. } => match &exps[0] {
            Expression::Table(t) => match &t.fields[0] {
                Field::Assign { name, .. } => assert_eq!(text(*name), "k"),
                other => panic!("unexpected {:?}", other),
            },
            other => panic!("unexpected {:?}", other),
        },
        other => panic!("unexpected {:?}", other),
    }
    let ret = c.tree.ret_stat.as_ref().unwrap();
    match &ret.exprs[0] {
        Expression::Prefix(PrefixExpression::Var(v)) => match &**v {
            Var::Dot { name, .. } => assert_eq!(text(*name), "f"),
            other => panic!("unexpected {:?}", other),
        },
        other => panic!("unexpected {:?}", other),
    }
    match &ret.exprs[1] {
        Expression::Prefix(PrefixExpression::Call(call)) => {
            assert_eq!(text(call.method_name.unwrap()), "m");
            match &call.args {
                FunctionArgs::String { value } => assert_eq!(text(*value), "'s'"),
                other => panic!("unexpected {:?}", other),
            }
        }
        other => panic!("unexpected {:?}", other),
    }
}

#[test]
fn a_function_body_sees_the_enclosing_locals() {
    let src = chars("local x = 1 local function f() return x end");
    let block = Parser::new(Lexer::new(&src)).unwrap().file().unwrap();
    let c = Resolver::new(&block).run().unwrap();
    let body = c
        .tree
        .statements
        .iter()
        .find_map(|s| match s {
            Statement::Function { body, .. } => Some(body),
            _ => None,
        })
        .unwrap();
    let ret = body.body.ret_stat.as_ref().unwrap();
    match &ret.exprs[0] {
        Expression::Prefix(PrefixExpression::Var(v)) => assert!(matches!(**v, Var::LocalName(VariableId(1)))),
        other => panic!("unexpected {:?}", other),
    }
}

#[test]
fn an_until_condition_sees_the_locals_of_its_loop() {
    let src = chars("repeat local z = 1 until z");
    let block = Parser::new(Lexer::new(&src)).unwrap().file().unwrap();
    let c = Resolver::new(&block).run().unwrap();
    match &c.tree.statements[0] {
        Statement::Repeat { expr, .. } => match expr {
            Expression::Prefix(PrefixExpression::Var(v)) => assert!(matches!(**v, Var::LocalName(VariableId(1)))),
            other => panic!("unexpected {:?}", other),
        },
        other => panic!("unexpected {:?}", other),
    }
}

#[test]
fn a_loop_body_sees_its_loop_variable() {
    let src = chars("for i = 1, 2 do local j = i end");
    let block = Parser::new(Lexer::new(&src)).unwrap().file().unwrap();
    let c = Resolver::new(&block).run().unwrap();
    match &c.tree.statements[0] {
        Statement::For { name, block, .. } => {
            assert_eq!(*name, VariableId(1));
            match block.statements.last().unwrap() {
                Statement::Assign { exps, .. } => match &exps[0] {
                    Expression::Prefix(PrefixExpression::Var(v)) => {
                        assert!(matches!(**v, Var::LocalName(VariableId(1))))
                    }
                    other => panic!("unexpected {:?}", other),
                },
                other => panic!("unexpected {:?}", other),
            }
        }
        other => panic!("unexpected {:?}", other),
    }
}
