use typed_lua::hir::hir_print::HirPrint;
use typed_lua::hir::HirBuilder;
use typed_lua::name_resolution::name_tree_print::NtPrint;
use typed_lua::name_resolution::Resolver;
use typed_lua::parser::ast_print::AstPrint;
use typed_lua::parser::lexer::Lexer;
use typed_lua::parser::Parser;
use typed_lua::utils::bstr::{bstr_printable, fmt_bstr};
use typed_lua::utils::size_of::{add_size, Size};
use typed_lua::utils::tree_print::TreeCtx;
use typed_lua::utils::Piece;

fn chars(s: &str) -> Vec<char> {
    s.chars().collect()
}

/// Text of some pieces, with sizes left out (they depend on allocations)
fn render(pieces: &[Piece]) -> String {
    let mut s = String::new();
    for p in pieces {
        match p {
            Piece::Char(c) => s.push(*c),
            Piece::ByteSize(_) => s.push_str(" <#>"),
            Piece::Float(c) => s.push(*c),
        }
    }
    s.replace(" <#>", "")
}

#[test]
fn fmt_bstr_keeps_printable_ascii() {
    assert_eq!(fmt_bstr(b"hello world"), "hello world");
}

#[test]
fn fmt_bstr_escapes_like_escape_default() {
    assert_eq!(fmt_bstr(b"a\tb\n\"'\\"), "a\\tb\\n\\\"\\'\\\\");
    assert_eq!(fmt_bstr("é€".as_bytes()), "\\u{e9}\\u{20ac}");
    assert_eq!(fmt_bstr(b"\x01"), "\\u{1}");
}

#[test]
fn fmt_bstr_writes_invalid_bytes_and_the_next_in_hex() {
    assert_eq!(fmt_bstr(b"\xffab"), "\\xFF\\x61ab");
    assert_eq!(fmt_bstr(b"x\xe2\x28y"), "x\\xE2\\x28(y");
}

#[test]
fn bytes_ending_in_bad_utf8_cannot_be_printed() {
    assert!(!bstr_printable(b"ab\xff"));
    assert!(!bstr_printable(b"ab\xe2\x82"));
    assert!(bstr_printable(b"ab\xffc"));
    assert!(bstr_printable("€".as_bytes()));
}

#[test]
fn tree_ctx_prefixes() {
    let root = TreeCtx::new(0usize);
    let mut out = Vec::new();
    root.print_sized(&mut out, &chars("Root"), Some(2), 0);
    let child = root.child();
    let mut named = child.last();
    named.name("Name");
    named.name("Inner");
    named.print_sized(&mut out, &chars("Leaf"), None, 0);
    root.last().print_sized(&mut out, &chars("End"), None, 0);
    let mut with_size = String::new();
    for p in &out {
        match p {
            Piece::Char(c) => with_size.push(*c),
            Piece::ByteSize(Size(n)) => with_size.push_str(&format!(" <{n}>")),
            Piece::Float(_) => panic!("no floats here"),
        }
    }
    assert_eq!(with_size, "Root[2] <0>\n|  `- Name: Inner: Leaf\n`- End\n");
}

#[test]
fn sizes_saturate() {
    assert_eq!(add_size(usize::MAX, 1), usize::MAX);
    assert_eq!(add_size(2, 3), 5);
}

#[test]
fn ast_of_a_return() {
    let src = chars("return 1");
    let block = Parser::new(Lexer::new(&src)).unwrap().file().unwrap();
    let text = render(&AstPrint::new(&block).pieces());
    assert_eq!(text, "Block[1]\n`- Return: List[1]\n   `- Number: Token \"1\"\n");
}

#[test]
fn ast_of_an_expression() {
    let src = chars("-a .. 'x\\n'");
    let mut parser = Parser::new(Lexer::new(&src)).unwrap();
    let e = parser.expression().unwrap().unwrap();
    let text = render(&AstPrint::new(&e).pieces());
    assert_eq!(
        text,
        "Binary\n\
         |- Left: Unary\n\
         |  |- Op: Negate\n\
         |  `- Name: Token \"a\"\n\
         |- Op: Concat\n\
         `- Right: String: Token \"'x\\\\n'\"\n"
    );
}

#[test]
fn ast_of_an_if_statement() {
    let src = chars("if a then elseif b then else end");
    let block = Parser::new(Lexer::new(&src)).unwrap().file().unwrap();
    let text = render(&AstPrint::new(&block).pieces());
    assert_eq!(
        text,
        "Block[1]\n\
         `- If[3]\n\
         \x20  |- Branch\n\
         \x20  |  |- Condition: Name: Token \"a\"\n\
         \x20  |  `- Block[0]\n\
         \x20  |- Branch\n\
         \x20  |  |- Condition: Name: Token \"b\"\n\
         \x20  |  `- Block[0]\n\
         \x20  `- Else: Block[0]\n"
    );
}

#[test]
fn name_tree_of_a_local() {
    let src = chars("local x = 'a' return x");
    let block = Parser::new(Lexer::new(&src)).unwrap().file().unwrap();
    let c = Resolver::new(&block).run().unwrap();
    assert!(NtPrint::printable(&c));
    let text = render(&NtPrint::new(&c).pieces());
    assert_eq!(
        text,
        "Name Tree: Container\n\
         |- Env: %_ENV.0\n\
         |- Strings: 3\n\
         |- Variables: 2\n\
         |- Labels: 0\n\
         `- Block[3]\n\
         \x20  |- Scope Start: %x.2\n\
         \x20  |- Assign\n\
         \x20  |  |- Init Globals: False\n\
         \x20  |  |- Variables: List[1]\n\
         \x20  |  |  `- Local: %x.2\n\
         \x20  |  `- Expressions: List[1]\n\
         \x20  |     `- String: \"a\"\n\
         \x20  |- Return: List[1]\n\
         \x20  |  `- Local: %x.2\n\
         \x20  `- Closed Variables: List[1]\n\
         \x20     `- Scope End: %x.2\n"
    );
}

#[test]
fn name_tree_quotes_names_that_are_not_words() {
    let src = chars("return 1.5");
    let block = Parser::new(Lexer::new(&src)).unwrap().file().unwrap();
    let c = Resolver::new(&block).run().unwrap();
    let text = render(&NtPrint::new(&c).pieces());
    assert!(text.ends_with("`- Block[1]\n   `- Return: List[1]\n      `- Float 1.5\n"));
}

#[test]
fn name_tree_with_bad_string_cannot_be_printed() {
    let src = chars("return '\\xff'");
    let block = Parser::new(Lexer::new(&src)).unwrap().file().unwrap();
    let c = Resolver::new(&block).run().unwrap();
    assert!(!NtPrint::printable(&c));
}

#[test]
fn hir_listing() {
    let src = chars("return 1, 'a'");
    let block = Parser::new(Lexer::new(&src)).unwrap().file().unwrap();
    let c = Resolver::new(&block).run().unwrap();
    let hir = HirBuilder::new(&c).run();
    assert!(HirPrint::printable(&hir));
    let text = render(&HirPrint::new(&hir).pieces());
    assert_eq!(
        text,
        "Hir[4] {\n    %0 = int 1\n    %1 = string \"a\"\n    %2 = tuple [%0, %1]\n    %3 = return %2\n}"
    );
}

#[test]
fn empty_hir_listing() {
    let src = chars("");
    let block = Parser::new(Lexer::new(&src)).unwrap().file().unwrap();
    let c = Resolver::new(&block).run().unwrap();
    let hir = HirBuilder::new(&c).run();
    assert_eq!(render(&HirPrint::new(&hir).pieces()), "Hir[0] { }");
}
