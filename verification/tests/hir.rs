use typed_lua::hir::hir_tree::{InstructionId, Opcode};
use typed_lua::hir::HirBuilder;
use typed_lua::name_resolution::Resolver;
use typed_lua::parser::ast::{BinaryOperator, UnaryOperator};
use typed_lua::parser::lexer::Lexer;
use typed_lua::parser::Parser;

fn chars(s: &str) -> Vec<char> {
    s.chars().collect()
}

fn describe(op: &Opcode) -> String {
    match op {
        Opcode::Block { instructions } => format!("block {}", instructions.len()),
        Opcode::Return { value } => format!("return {:?}", value.map(|v| v.0)),
        Opcode::Tuple { values } => format!("tuple {:?}", values.iter().map(|v| v.0).collect::<Vec<_>>()),
        Opcode::Nil => "nil".to_string(),
        Opcode::Bool(b) => format!("bool {b}"),
        Opcode::Float(f) => format!("float {}", f.iter().collect::<String>()),
        Opcode::Int(i) => format!("int {i}"),
        Opcode::String(s) => format!("string {}", s.0),
        Opcode::Binary { left, op, right } => format!("{:?} {} {}", op, left.0, right.0),
        Opcode::Unary(op, e) => format!("{:?} {}", op, e.0),
    }
}

fn lower(src: &str) -> Vec<(u32, String)> {
    let text = chars(src);
    let block = Parser::new(Lexer::new(&text)).unwrap().file().unwrap();
    let c = Resolver::new(&block).run().unwrap();
    assert!(HirBuilder::can_lower(&c));
    let hir = HirBuilder::new(&c).run();
    assert_eq!(hir.strings, c.string_table);
    hir.instructions.iter().map(|i| (i.id.0, describe(&i.opcode))).collect()
}

#[test]
fn several_values_are_returned_as_a_tuple() {
    assert_eq!(
        lower("return 1, 2"),
        vec![
            (0, "int 1".to_string()),
            (1, "int 2".to_string()),
            (2, "tuple [0, 1]".to_string()),
            (3, "return Some(2)".to_string()),
        ]
    );
}

#[test]
fn one_value_is_returned_directly() {
    assert_eq!(
        lower("return true"),
        vec![(0, "bool true".to_string()), (1, "return Some(0)".to_string())]
    );
}

#[test]
fn no_value_returns_nothing() {
    assert_eq!(lower("return"), vec![(0, "return None".to_string())]);
}

#[test]
fn no_return_gives_no_instructions() {
    assert_eq!(lower(""), Vec::<(u32, String)>::new());
}

#[test]
fn operands_come_before_their_operator() {
    assert_eq!(
        lower("return -1 + 'a'"),
        vec![
            (0, "int 1".to_string()),
            (1, format!("{:?} 0", UnaryOperator::Negate)),
            (2, "string 1".to_string()),
            (3, format!("{:?} 1 2", BinaryOperator::Plus)),
            (4, "return Some(3)".to_string()),
        ]
    );
}

#[test]
fn floats_and_nil_are_lowered() {
    assert_eq!(
        lower("return nil, 2.5"),
        vec![
            (0, "nil".to_string()),
            (1, "float 2.5".to_string()),
            (2, "tuple [0, 1]".to_string()),
            (3, "return Some(2)".to_string()),
        ]
    );
}

#[test]
fn statements_cannot_be_lowered() {
    let text = chars("local x = 1");
    let block = Parser::new(Lexer::new(&text)).unwrap().file().unwrap();
    let c = Resolver::new(&block).run().unwrap();
    assert!(!HirBuilder::can_lower(&c));
}

#[test]
fn calls_cannot_be_lowered() {
    let text = chars("return f()");
    let block = Parser::new(Lexer::new(&text)).unwrap().file().unwrap();
    let c = Resolver::new(&block).run().unwrap();
    assert!(!HirBuilder::can_lower(&c));
}

#[test]
fn instruction_ids_name_their_position() {
    let out = lower("return 1 * 2 - 3, 4");
    for (i, (id, _)) in out.iter().enumerate() {
        assert_eq!(*id as usize, i);
    }
    let _ = InstructionId(0);
}
