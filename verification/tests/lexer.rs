use typed_lua::parser::lexer::{LexError, Lexer, TokenKind};

fn chars(s: &str) -> Vec<char> {
    s.chars().collect()
}

fn kinds(src: &str) -> Vec<(TokenKind, String)> {
    let text = chars(src);
    let mut lexer = Lexer::new(&text);
    let mut out = Vec::new();
    loop {
        let t = lexer.next().expect("lexes");
        out.push((t.kind, t.value.iter().collect::<String>()));
        if t.kind == TokenKind::Eof {
            break;
        }
    }
    out
}

#[test]
fn lexes_local_declaration() {
    let toks = kinds("local x = 10");
    let expected = vec![
        (TokenKind::Local, "local".to_string()),
        (TokenKind::Name, "x".to_string()),
        (TokenKind::Equal, "=".to_string()),
        (TokenKind::Number, "10".to_string()),
        (TokenKind::Eof, "".to_string()),
    ];
    assert_eq!(toks, expected);
}

#[test]
fn lexes_multi_character_symbols() {
    let toks: Vec<TokenKind> = kinds("a <= b // c .. d ... ~= :: >> <<").into_iter().map(|t| t.0).collect();
    assert_eq!(
        toks,
        vec![
            TokenKind::Name,
            TokenKind::LessEqual,
            TokenKind::Name,
            TokenKind::SlashSlash,
            TokenKind::Name,
            TokenKind::DotDot,
            TokenKind::Name,
            TokenKind::DotDotDot,
            TokenKind::TildeEqual,
            TokenKind::ColonColon,
            TokenKind::GreaterGreater,
            TokenKind::LessLess,
            TokenKind::Eof,
        ]
    );
}

#[test]
fn skips_comments_and_counts_lines() {
    // newlines inside a long comment are not counted
    let text = chars("-- a comment\n--[[ long\ncomment ]] x\n y");
    let mut lexer = Lexer::new(&text);
    let x = lexer.next().unwrap();
    assert_eq!(x.kind, TokenKind::Name);
    assert_eq!(x.value, &['x']);
    assert_eq!(x.line, 2);
    let y = lexer.next().unwrap();
    assert_eq!(y.value, &['y']);
    assert_eq!(y.line, 3);
}

#[test]
fn strings_keep_their_quotes() {
    let toks = kinds("'a\\'b' \"c\" [[long]] [==[x]]y]==]");
    assert_eq!(toks[0], (TokenKind::String, "'a\\'b'".to_string()));
    assert_eq!(toks[1], (TokenKind::String, "\"c\"".to_string()));
    assert_eq!(toks[2], (TokenKind::String, "[[long]]".to_string()));
    assert_eq!(toks[3], (TokenKind::String, "[==[x]]y]==]".to_string()));
}

#[test]
fn numbers_with_exponents_and_hex() {
    let toks = kinds("3.5e-2 0x1Fp+3 12");
    assert_eq!(toks[0], (TokenKind::Number, "3.5e-2".to_string()));
    assert_eq!(toks[1], (TokenKind::Number, "0x1Fp+3".to_string()));
    assert_eq!(toks[2], (TokenKind::Number, "12".to_string()));
}

#[test]
fn end_of_file_is_returned_forever() {
    let text = chars("");
    let mut lexer = Lexer::new(&text);
    for _ in 0..3 {
        let t = lexer.next().unwrap();
        assert_eq!(t.kind, TokenKind::Eof);
    }
}

#[test]
fn unexpected_character_is_an_error() {
    let text = chars("a @");
    let mut lexer = Lexer::new(&text);
    assert!(lexer.next().is_ok());
    match lexer.next() {
        Err(LexError::UnexpectedCharacter { ch, line }) => {
            assert_eq!(ch, '@');
            assert_eq!(line, 1);
        }
        other => panic!("unexpected {:?}", other),
    }
}

#[test]
fn unterminated_string_is_an_error() {
    let text = chars("'abc");
    let mut lexer = Lexer::new(&text);
    assert!(lexer.next().is_err());
}

#[test]
fn keywords_are_recognised() {
    let toks: Vec<TokenKind> = kinds("while true do break end").into_iter().map(|t| t.0).collect();
    assert_eq!(
        toks,
        vec![
            TokenKind::While,
            TokenKind::True,
            TokenKind::Do,
            TokenKind::Break,
            TokenKind::End,
            TokenKind::Eof,
        ]
    );
}

#[test]
fn listing_shows_lines_kinds_and_text() {
    let text = chars("x = 1\ny");
    let lexer = Lexer::new(&text);
    let listing = lexer.listing().unwrap();
    assert_eq!(
        listing,
        "   1 Name 'x'\n   | Equal '='\n   | Number '1'\n   2 Name 'y'\n   | Eof ''\n"
    );
}

#[test]
fn token_kind_names_are_their_debug_names() {
    assert_eq!(TokenKind::LessEqual.name(), format!("{:?}", TokenKind::LessEqual));
    assert_eq!(TokenKind::Elseif.name(), "Elseif");
}
