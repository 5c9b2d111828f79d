use typed_lua::parser::ast::{BinaryOperator, Block, Expression, Field, FunctionArgs, PrefixExpression, Statement, UnaryOperator, Var, Visibility};
use typed_lua::parser::ast_size::{block_size, statement_size};
use typed_lua::parser::lexer::{LexError, Lexer, TokenKind};
use typed_lua::parser::{ParseError, Parser, Precedence};

fn chars(s: &str) -> Vec<char> {
    s.chars().collect()
}

fn parse_file(text: &[char]) -> Result<Block<'_>, ParseError<'_>> {
    Parser::new(Lexer::new(text))?.file()
}

fn text(t: &[char]) -> String {
    t.iter().collect()
}

#[test]
fn parses_local_declaration() {
    let src = chars("local x = 10");
    let block = parse_file(&src).unwrap();
    assert_eq!(block.statements.len(), 1);
    assert!(block.ret_stat.is_none());
    match &block.statements[0] {
        Statement::Declare { vis, names, exprs } => {
            assert_eq!(*vis, Visibility::Local);
            assert_eq!(names.names.len(), 1);
            assert_eq!(text(names.names[0].0.value), "x");
            assert_eq!(exprs.len(), 1);
            match &exprs[0] {
                Expression::Number(t) => assert_eq!(text(t.value), "10"),
                other => panic!("unexpected {:?}", other),
            }
        }
        other => panic!("unexpected {:?}", other),
    }
}

#[test]
fn multiplication_binds_tighter_than_addition() {
    let src = chars("1 + 2 * 3");
    let mut parser = Parser::new(Lexer::new(&src)).unwrap();
    let e = parser.expression().unwrap().unwrap();
    match e {
        Expression::Binary { left, op, right } => {
            assert_eq!(op, BinaryOperator::Plus);
            assert!(matches!(*left, Expression::Number(_)));
            match *right {
                Expression::Binary { op, .. } => assert_eq!(op, BinaryOperator::Multiply),
                other => panic!("unexpected {:?}", other),
            }
        }
        other => panic!("unexpected {:?}", other),
    }
}

#[test]
fn exponent_is_right_associative() {
    let src = chars("2 ^ 3 ^ 4");
    let mut parser = Parser::new(Lexer::new(&src)).unwrap();
    match parser.expression().unwrap().unwrap() {
        Expression::Binary { left, op, right } => {
            assert_eq!(op, BinaryOperator::Exponent);
            assert!(matches!(*left, Expression::Number(_)));
            assert!(matches!(*right, Expression::Binary { op: BinaryOperator::Exponent, .. }));
        }
        other => panic!("unexpected {:?}", other),
    }
}

#[test]
fn concat_is_right_associative() {
    let src = chars("a .. b .. c");
    let mut parser = Parser::new(Lexer::new(&src)).unwrap();
    match parser.expression().unwrap().unwrap() {
        Expression::Binary { left, op, right } => {
            assert_eq!(op, BinaryOperator::Concat);
            assert!(matches!(*left, Expression::Prefix(_)));
            assert!(matches!(*right, Expression::Binary { op: BinaryOperator::Concat, .. }));
        }
        other => panic!("unexpected {:?}", other),
    }
}

#[test]
fn subtraction_is_left_associative() {
    let src = chars("a - b - c");
    let mut parser = Parser::new(Lexer::new(&src)).unwrap();
    match parser.expression().unwrap().unwrap() {
        Expression::Binary { left, op, right } => {
            assert_eq!(op, BinaryOperator::Minus);
            assert!(matches!(*left, Expression::Binary { op: BinaryOperator::Minus, .. }));
            assert!(matches!(*right, Expression::Prefix(_)));
        }
        other => panic!("unexpected {:?}", other),
    }
}

#[test]
fn unary_minus_binds_looser_than_exponent() {
    let src = chars("-x ^ 2");
    let mut parser = Parser::new(Lexer::new(&src)).unwrap();
    match parser.expression().unwrap().unwrap() {
        Expression::Unary { expr, op } => {
            assert_eq!(op, UnaryOperator::Negate);
            assert!(matches!(*expr, Expression::Binary { op: BinaryOperator::Exponent, .. }));
        }
        other => panic!("unexpected {:?}", other),
    }
}

#[test]
fn no_expression_gives_none() {
    let src = chars(")");
    let mut parser = Parser::new(Lexer::new(&src)).unwrap();
    assert!(parser.expression().unwrap().is_none());
}

#[test]
fn parses_calls_and_indexing() {
    let src = chars("a.b:c(1, 2)[3] = f{} \"s\"");
    let block = parse_file(&src).unwrap();
    assert_eq!(block.statements.len(), 1);
    match &block.statements[0] {
        Statement::Assign { vars, exps } => {
            assert_eq!(vars.len(), 1);
            assert!(matches!(vars[0], Var::Index { .. }));
            assert_eq!(exps.len(), 1);
            assert!(matches!(exps[0], Expression::Prefix(PrefixExpression::Call(_))));
        }
        other => panic!("unexpected {:?}", other),
    }
}

#[test]
fn parses_control_flow() {
    let src = chars(
        "if a then b() elseif c then d() else e() end \
         while x do break end \
         repeat y() until z \
         for i = 1, 10, 2 do end \
         for k, v in pairs(t) do end \
         function m.n:o(p, ...) return p end \
         ::top:: goto top \
         do end",
    );
    let block = parse_file(&src).unwrap();
    let kinds: Vec<&str> = block
        .statements
        .iter()
        .map(|s| match s {
            Statement::If { elseif, else_block, .. } => {
                assert_eq!(elseif.len(), 1);
                assert!(else_block.is_some());
                "if"
            }
            Statement::While { .. } => "while",
            Statement::Repeat { .. } => "repeat",
            Statement::For { step, .. } => {
                assert!(step.is_some());
                "for"
            }
            Statement::ForEach { names, .. } => {
                assert_eq!(names.len(), 2);
                "foreach"
            }
            Statement::Function { name, body, .. } => {
                assert_eq!(name.names.len(), 2);
                assert!(name.method.is_some());
                assert_eq!(body.parameters.names.len(), 1);
                assert!(body.parameters.var_name.is_some());
                "function"
            }
            Statement::Label(_) => "label",
            Statement::Goto(_) => "goto",
            Statement::Block(_) => "do",
            _ => "other",
        })
        .collect();
    assert_eq!(kinds, vec!["if", "while", "repeat", "for", "foreach", "function", "label", "goto", "do"]);
}

#[test]
fn parses_return_statement() {
    let src = chars("return 1, 2;");
    let block = parse_file(&src).unwrap();
    assert_eq!(block.statements.len(), 0);
    assert_eq!(block.ret_stat.unwrap().exprs.len(), 2);
}

#[test]
fn parses_table_constructor() {
    let src = chars("t = { [1] = 2, x = 3, 4; }");
    let block = parse_file(&src).unwrap();
    match &block.statements[0] {
        Statement::Assign { exps, .. } => match &exps[0] {
            Expression::Table(fields) => assert_eq!(fields.fields.len(), 3),
            other => panic!("unexpected {:?}", other),
        },
        other => panic!("unexpected {:?}", other),
    }
}

#[test]
fn global_declarations_and_attributes() {
    let src = chars("global<const> *  local a <close>, b <const> = 1, 2");
    let block = parse_file(&src).unwrap();
    assert_eq!(block.statements.len(), 2);
    assert!(matches!(block.statements[0], Statement::GlobalCollective { attrib: Some(_) }));
    match &block.statements[1] {
        Statement::Declare { vis, names, .. } => {
            assert_eq!(*vis, Visibility::Local);
            assert_eq!(names.names.len(), 2);
            assert!(names.names[0].1.is_some());
        }
        other => panic!("unexpected {:?}", other),
    }
}

#[test]
fn missing_name_is_a_syntax_error() {
    let src = chars("local = 1");
    match parse_file(&src) {
        Err(ParseError::Syntax { token, .. }) => assert_eq!(token.kind, TokenKind::Equal),
        other => panic!("unexpected {:?}", other),
    }
}

#[test]
fn trailing_tokens_are_a_syntax_error() {
    let src = chars("return 1 x");
    assert!(matches!(parse_file(&src), Err(ParseError::Syntax { .. })));
}

#[test]
fn lex_errors_are_reported() {
    let src = chars("x = $");
    match parse_file(&src) {
        Err(ParseError::Lex(LexError::UnexpectedCharacter { ch, .. })) => assert_eq!(ch, '$'),
        other => panic!("unexpected {:?}", other),
    }
}

#[test]
fn precedence_next_is_one_tighter() {
    assert_eq!(Precedence::NoPrec.next(), Precedence::OrPrec);
    assert_eq!(Precedence::Additive.next(), Precedence::Multiplicative);
    assert_eq!(Precedence::Primary.next(), Precedence::Primary);
}

#[test]
fn operator_names_are_their_debug_names() {
    assert_eq!(BinaryOperator::FloorDivide.name(), format!("{:?}", BinaryOperator::FloorDivide));
    assert_eq!(UnaryOperator::Tilde.name(), "Tilde");
}

#[test]
fn blank_source_is_an_empty_block() {
    let src = chars("  -- only a comment\n\t");
    let block = parse_file(&src).unwrap();
    assert!(block.statements.is_empty());
    assert!(block.ret_stat.is_none());
}

#[test]
fn parenthesised_statement_is_rejected() {
    let src = chars("(a)");
    match parse_file(&src) {
        Err(ParseError::Syntax { message, .. }) => {
            assert_eq!(message, "Unexpected parenthesised expression")
        }
        other => panic!("unexpected {:?}", other),
    }
}

#[test]
fn precedence_holds_inside_statements() {
    let src = chars("local t = { f(1 - 2 - 3) }");
    let block = parse_file(&src).unwrap();
    let exprs = match &block.statements[0] {
        Statement::Declare { exprs, .. } => exprs,
        other => panic!("unexpected {:?}", other),
    };
    let fields = match &exprs[0] {
        Expression::Table(t) => &t.fields,
        other => panic!("unexpected {:?}", other),
    };
    let call = match &fields[0] {
        Field::Exp { expr: Expression::Prefix(PrefixExpression::Call(c)) } => c,
        other => panic!("unexpected {:?}", other),
    };
    let args = match &call.args {
        FunctionArgs::Call { exprs } => exprs,
        other => panic!("unexpected {:?}", other),
    };
    match &args[0] {
        Expression::Binary { left, op, right } => {
            assert_eq!(*op, BinaryOperator::Minus);
            assert!(matches!(**right, Expression::Number(_)));
            assert!(matches!(**left, Expression::Binary { op: BinaryOperator::Minus, .. }));
        }
        other => panic!("unexpected {:?}", other),
    }
}

#[test]
fn sizes_count_at_least_their_buffers() {
    let src = chars("x, y = 1, 2");
    let block = parse_file(&src).unwrap();
    let s = statement_size(&block.statements[0]);
    let least = 2 * std::mem::size_of::<Var>() + 2 * std::mem::size_of::<Expression>();
    assert!(s >= least);
    assert!(block_size(&block) >= s + std::mem::size_of::<Statement>());
}

#[test]
fn semicolons_and_breaks_are_statements() {
    let src = chars(";; break ;");
    let block = parse_file(&src).unwrap();
    assert_eq!(block.statements.len(), 4);
    assert!(matches!(block.statements[0], Statement::Empty));
    assert!(matches!(block.statements[1], Statement::Empty));
    assert!(matches!(block.statements[2], Statement::Break));
    assert!(matches!(block.statements[3], Statement::Empty));
    assert!(block.ret_stat.is_none());
}
