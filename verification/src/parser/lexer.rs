//! Splitting source text into tokens.

use vstd::prelude::*;

use crate::utils::digits;

verus! {

/// All possible token kinds
#[derive(Debug, Clone, Copy, PartialEq, Eq, Structural)]
pub enum TokenKind {
    Eof,
    // Single Character Symbols
    Plus,
    Minus,
    Star,
    Percent,
    Caret,
    Hash,
    Ampersand,
    Bar,
    Comma,
    LeftParen,
    RightParen,
    LeftCurly,
    RightCurly,
    LeftSquare,
    RightSquare,
    SemiColon,
    // Possibly Multi Character Symbols
    Less,
    LessLess,
    LessEqual,
    Greater,
    GreaterGreater,
    GreaterEqual,
    Slash,
    SlashSlash,
    Equal,
    EqualEqual,
    Tilde,
    TildeEqual,
    Colon,
    ColonColon,
    Dot,
    DotDot,
    DotDotDot,
    // Literals
    Name,
    String,
    Number,
    // Keywords
    And,
    Break,
    Do,
    Else,
    Elseif,
    End,
    False,
    For,
    Function,
    Global,
    Goto,
    If,
    In,
    Local,
    Nil,
    Not,
    Or,
    Repeat,
    Return,
    Then,
    True,
    Until,
    While,
}

/// A single section of input source code
#[derive(Debug, Clone, Copy)]
pub struct Token<'a> {
    pub kind: TokenKind,
    pub value: &'a [char],
    pub line: usize,
}

/// Why a source text could not be split into tokens
#[derive(Debug, Clone, Copy, PartialEq, Eq, Structural)]
pub enum LexError {
    /// A character that starts no token
    UnexpectedCharacter { ch: char, line: usize },
    /// A long bracket string `[[ ... ]]` without its closing bracket
    UnterminatedLongString { line: usize },
    /// A quoted string without its closing quote
    UnterminatedString { line: usize },
    /// A long comment `--[[ ... ]]` without its closing bracket
    UnterminatedLongComment { line: usize },
}

/// Get all tokens from an input file stream
#[derive(Debug, Clone, Copy)]
pub struct Lexer<'a> {
    src: &'a [char],
    start: usize,
    current: usize,
    line: usize,
}

// ---------------------------------------------------------------------------
// The lexical grammar, stated over the source characters.
// ---------------------------------------------------------------------------

/// Whitespace other than a newline
pub open spec fn is_blank(c: char) -> bool {
    c == ' ' || c == '\r' || c == '\t' || c == '\x0B' || c == '\x0C'
}

pub open spec fn is_digit(c: char) -> bool {
    '0' <= c && c <= '9'
}

pub open spec fn is_hex_digit(c: char) -> bool {
    is_digit(c) || ('a' <= c && c <= 'f') || ('A' <= c && c <= 'F')
}

pub open spec fn is_name_start(c: char) -> bool {
    ('a' <= c && c <= 'z') || ('A' <= c && c <= 'Z') || c == '_'
}

pub open spec fn is_name_char(c: char) -> bool {
    is_name_start(c) || is_digit(c)
}

/// The character at `i`, if there is one.
pub open spec fn char_at(s: Seq<char>, i: int) -> Option<char> {
    if 0 <= i < s.len() {
        Some(s[i])
    } else {
        None
    }
}

/// Number of consecutive `=` starting at `i`
pub open spec fn eq_run(s: Seq<char>, i: int) -> nat
    decreases s.len() - i,
{
    if 0 <= i < s.len() && s[i] == '=' {
        1 + eq_run(s, i + 1)
    } else {
        0
    }
}

/// Level of an opening long bracket `[==[` whose first `[` is at `i`.
pub open spec fn long_open_level(s: Seq<char>, i: int) -> Option<nat> {
    if char_at(s, i) == Some('[') && char_at(s, i + 1 + eq_run(s, i + 1)) == Some('[') {
        Some(eq_run(s, i + 1))
    } else {
        None
    }
}

/// A closing long bracket `]==]` of the given level starts at `i`.
pub open spec fn close_at(s: Seq<char>, i: int, level: nat) -> bool {
    &&& 0 <= i
    &&& i + level + 1 < s.len()
    &&& s[i] == ']'
    &&& forall|j: int| 1 <= j <= level ==> #[trigger] s[i + j] == '='
    &&& s[i + level + 1] == ']'
}

/// The first position at or after `i` where a closing long bracket of the
/// given level starts.
pub open spec fn first_close(s: Seq<char>, i: int, level: nat) -> Option<int>
    decreases s.len() - i,
{
    if i < 0 || i >= s.len() {
        None
    } else if close_at(s, i, level) {
        Some(i)
    } else {
        first_close(s, i + 1, level)
    }
}

/// Position of the first newline at or after `i`, or the end of the source.
pub open spec fn line_end(s: Seq<char>, i: int) -> int
    decreases s.len() - i,
{
    if i < 0 || i >= s.len() {
        if i < 0 { 0 } else { s.len() as int }
    } else if s[i] == '\n' {
        i
    } else {
        line_end(s, i + 1)
    }
}

/// End of a comment whose text (after the `--`) starts at `i`, or `None`
/// when it is a long comment that is never closed.
pub open spec fn comment_end(s: Seq<char>, i: int) -> Option<int> {
    match long_open_level(s, i) {
        Some(level) => match first_close(s, i + level + 2, level) {
            Some(c) => Some(c + level + 2),
            None => None,
        },
        None => Some(line_end(s, i)),
    }
}

/// Skip whitespace and comments from `i` on `line`.  Gives the position of
/// the next token and its line, or the line of an unterminated long comment.
pub open spec fn skip_space(s: Seq<char>, i: int, line: int) -> Result<(int, int), int>
    decreases s.len() - i,
{
    if i < 0 || i >= s.len() {
        Ok((i, line))
    } else if is_blank(s[i]) {
        skip_space(s, i + 1, line)
    } else if s[i] == '\n' {
        skip_space(s, i + 1, line + 1)
    } else if s[i] == '-' && char_at(s, i + 1) == Some('-') {
        match comment_end(s, i + 2) {
            Some(e) => if i < e <= s.len() { skip_space(s, e, line) } else { Ok((i, line)) },
            None => Err(line),
        }
    } else {
        Ok((i, line))
    }
}

/// End of a quoted string whose opening quote `q` is just before `i`: the
/// position after the closing quote, or the end of the source.  A backslash
/// always takes the character after it along.
pub open spec fn string_end(s: Seq<char>, i: int, q: char) -> int
    decreases s.len() - i,
{
    if i < 0 || i >= s.len() {
        if i < 0 { 0 } else { s.len() as int }
    } else if s[i] == '\\' {
        if i + 2 >= s.len() {
            s.len() as int
        } else {
            string_end(s, i + 2, q)
        }
    } else if s[i] == q {
        i + 1
    } else {
        string_end(s, i + 1, q)
    }
}

/// End of a numeral from `i` on: hexadecimal digits, `.` and exponent marks
/// (`e`/`E`, or `p`/`P` when hexadecimal), each exponent mark optionally
/// followed by a sign.
pub open spec fn number_end(s: Seq<char>, i: int, hex: bool) -> int
    decreases s.len() - i,
{
    if i < 0 || i >= s.len() {
        if i < 0 { 0 } else { s.len() as int }
    } else if is_exponent_mark(s[i], hex) {
        if char_at(s, i + 1) == Some('+') || char_at(s, i + 1) == Some('-') {
            number_end(s, i + 2, hex)
        } else {
            number_end(s, i + 1, hex)
        }
    } else if is_hex_digit(s[i]) || s[i] == '.' {
        number_end(s, i + 1, hex)
    } else {
        i
    }
}

pub open spec fn is_exponent_mark(c: char, hex: bool) -> bool {
    if hex {
        c == 'p' || c == 'P'
    } else {
        c == 'e' || c == 'E'
    }
}

/// End of the numeral starting (with a digit) at `i`.
pub open spec fn numeral_end(s: Seq<char>, i: int) -> int {
    if s[i] == '0' && (char_at(s, i + 1) == Some('x') || char_at(s, i + 1) == Some('X')) {
        number_end(s, i + 2, true)
    } else {
        number_end(s, i + 1, false)
    }
}

/// End of the name starting at `i`.
pub open spec fn name_end(s: Seq<char>, i: int) -> int
    decreases s.len() - i,
{
    if 0 <= i < s.len() && is_name_char(s[i]) {
        name_end(s, i + 1)
    } else {
        if i < 0 { 0 } else if i > s.len() { s.len() as int } else { i }
    }
}

/// Kind of a name: a keyword, or `Name`.
pub open spec fn keyword_kind(w: Seq<char>) -> TokenKind {
    if w == seq!['a', 'n', 'd'] {
        TokenKind::And
    } else if w == seq!['b', 'r', 'e', 'a', 'k'] {
        TokenKind::Break
    } else if w == seq!['d', 'o'] {
        TokenKind::Do
    } else if w == seq!['e', 'l', 's', 'e'] {
        TokenKind::Else
    } else if w == seq!['e', 'l', 's', 'e', 'i', 'f'] {
        TokenKind::Elseif
    } else if w == seq!['e', 'n', 'd'] {
        TokenKind::End
    } else if w == seq!['f', 'a', 'l', 's', 'e'] {
        TokenKind::False
    } else if w == seq!['f', 'o', 'r'] {
        TokenKind::For
    } else if w == seq!['f', 'u', 'n', 'c', 't', 'i', 'o', 'n'] {
        TokenKind::Function
    } else if w == seq!['g', 'l', 'o', 'b', 'a', 'l'] {
        TokenKind::Global
    } else if w == seq!['g', 'o', 't', 'o'] {
        TokenKind::Goto
    } else if w == seq!['i', 'f'] {
        TokenKind::If
    } else if w == seq!['i', 'n'] {
        TokenKind::In
    } else if w == seq!['l', 'o', 'c', 'a', 'l'] {
        TokenKind::Local
    } else if w == seq!['n', 'i', 'l'] {
        TokenKind::Nil
    } else if w == seq!['n', 'o', 't'] {
        TokenKind::Not
    } else if w == seq!['o', 'r'] {
        TokenKind::Or
    } else if w == seq!['r', 'e', 'p', 'e', 'a', 't'] {
        TokenKind::Repeat
    } else if w == seq!['r', 'e', 't', 'u', 'r', 'n'] {
        TokenKind::Return
    } else if w == seq!['t', 'h', 'e', 'n'] {
        TokenKind::Then
    } else if w == seq!['t', 'r', 'u', 'e'] {
        TokenKind::True
    } else if w == seq!['u', 'n', 't', 'i', 'l'] {
        TokenKind::Until
    } else if w == seq!['w', 'h', 'i', 'l', 'e'] {
        TokenKind::While
    } else {
        TokenKind::Name
    }
}

/// How each keyword is spelled in Lua source: the keyword kinds are named
/// after their spelling
pub open spec fn keyword_spelling(k: TokenKind) -> Option<Seq<char>> {
    match k {
        TokenKind::And => Some(seq!['a', 'n', 'd']),
        TokenKind::Break => Some(seq!['b', 'r', 'e', 'a', 'k']),
        TokenKind::Do => Some(seq!['d', 'o']),
        TokenKind::Else => Some(seq!['e', 'l', 's', 'e']),
        TokenKind::Elseif => Some(seq!['e', 'l', 's', 'e', 'i', 'f']),
        TokenKind::End => Some(seq!['e', 'n', 'd']),
        TokenKind::False => Some(seq!['f', 'a', 'l', 's', 'e']),
        TokenKind::For => Some(seq!['f', 'o', 'r']),
        TokenKind::Function => Some(seq!['f', 'u', 'n', 'c', 't', 'i', 'o', 'n']),
        TokenKind::Global => Some(seq!['g', 'l', 'o', 'b', 'a', 'l']),
        TokenKind::Goto => Some(seq!['g', 'o', 't', 'o']),
        TokenKind::If => Some(seq!['i', 'f']),
        TokenKind::In => Some(seq!['i', 'n']),
        TokenKind::Local => Some(seq!['l', 'o', 'c', 'a', 'l']),
        TokenKind::Nil => Some(seq!['n', 'i', 'l']),
        TokenKind::Not => Some(seq!['n', 'o', 't']),
        TokenKind::Or => Some(seq!['o', 'r']),
        TokenKind::Repeat => Some(seq!['r', 'e', 'p', 'e', 'a', 't']),
        TokenKind::Return => Some(seq!['r', 'e', 't', 'u', 'r', 'n']),
        TokenKind::Then => Some(seq!['t', 'h', 'e', 'n']),
        TokenKind::True => Some(seq!['t', 'r', 'u', 'e']),
        TokenKind::Until => Some(seq!['u', 'n', 't', 'i', 'l']),
        TokenKind::While => Some(seq!['w', 'h', 'i', 'l', 'e']),
        _ => None,
    }
}

/// A word lexes as the keyword spelled by it, and as a plain name when no
/// keyword is spelled so: the lexer gives `and` the kind `And`, `or` the kind
/// `Or`, and so on for every keyword.
pub proof fn law_keyword_spelling(w: Seq<char>, k: TokenKind)
    ensures
        keyword_spelling(k) == Some(w) ==> keyword_kind(w) == k,
        keyword_kind(w) != TokenKind::Name ==> keyword_spelling(keyword_kind(w)) == Some(w),
        keyword_kind(w) == TokenKind::Name ==> keyword_spelling(k) != Some(w),
{
    if keyword_spelling(k) == Some(w) {
        match k {
            TokenKind::And => {
                assert(w =~= seq!['a', 'n', 'd']);
            },
            TokenKind::Break => {
                assert(w =~= seq!['b', 'r', 'e', 'a', 'k']);
            },
            TokenKind::Do => {
                assert(w =~= seq!['d', 'o']);
            },
            TokenKind::Else => {
                assert(w =~= seq!['e', 'l', 's', 'e']);
            },
            TokenKind::Elseif => {
                assert(w =~= seq!['e', 'l', 's', 'e', 'i', 'f']);
            },
            TokenKind::End => {
                assert(w =~= seq!['e', 'n', 'd']);
                assert(seq!['e', 'n', 'd'][0] != seq!['a', 'n', 'd'][0]);
            },
            TokenKind::False => {
                assert(w =~= seq!['f', 'a', 'l', 's', 'e']);
                assert(seq!['f', 'a', 'l', 's', 'e'][0] != seq!['b', 'r', 'e', 'a', 'k'][0]);
            },
            TokenKind::For => {
                assert(w =~= seq!['f', 'o', 'r']);
                assert(seq!['f', 'o', 'r'][0] != seq!['a', 'n', 'd'][0]);
                assert(seq!['f', 'o', 'r'][0] != seq!['e', 'n', 'd'][0]);
            },
            TokenKind::Function => {
                assert(w =~= seq!['f', 'u', 'n', 'c', 't', 'i', 'o', 'n']);
            },
            TokenKind::Global => {
                assert(w =~= seq!['g', 'l', 'o', 'b', 'a', 'l']);
                assert(seq!['g', 'l', 'o', 'b', 'a', 'l'][0] != seq!['e', 'l', 's', 'e', 'i', 'f'][0]);
            },
            TokenKind::Goto => {
                assert(w =~= seq!['g', 'o', 't', 'o']);
                assert(seq!['g', 'o', 't', 'o'][0] != seq!['e', 'l', 's', 'e'][0]);
            },
            TokenKind::If => {
                assert(w =~= seq!['i', 'f']);
                assert(seq!['i', 'f'][0] != seq!['d', 'o'][0]);
            },
            TokenKind::In => {
                assert(w =~= seq!['i', 'n']);
                assert(seq!['i', 'n'][0] != seq!['d', 'o'][0]);
                assert(seq!['i', 'n'][1] != seq!['i', 'f'][1]);
            },
            TokenKind::Local => {
                assert(w =~= seq!['l', 'o', 'c', 'a', 'l']);
                assert(seq!['l', 'o', 'c', 'a', 'l'][0] != seq!['b', 'r', 'e', 'a', 'k'][0]);
                assert(seq!['l', 'o', 'c', 'a', 'l'][0] != seq!['f', 'a', 'l', 's', 'e'][0]);
            },
            TokenKind::Nil => {
                assert(w =~= seq!['n', 'i', 'l']);
                assert(seq!['n', 'i', 'l'][0] != seq!['a', 'n', 'd'][0]);
                assert(seq!['n', 'i', 'l'][0] != seq!['e', 'n', 'd'][0]);
                assert(seq!['n', 'i', 'l'][0] != seq!['f', 'o', 'r'][0]);
            },
            TokenKind::Not => {
                assert(w =~= seq!['n', 'o', 't']);
                assert(seq!['n', 'o', 't'][0] != seq!['a', 'n', 'd'][0]);
                assert(seq!['n', 'o', 't'][0] != seq!['e', 'n', 'd'][0]);
                assert(seq!['n', 'o', 't'][0] != seq!['f', 'o', 'r'][0]);
                assert(seq!['n', 'o', 't'][1] != seq!['n', 'i', 'l'][1]);
            },
            TokenKind::Or => {
                assert(w =~= seq!['o', 'r']);
                assert(seq!['o', 'r'][0] != seq!['d', 'o'][0]);
                assert(seq!['o', 'r'][0] != seq!['i', 'f'][0]);
                assert(seq!['o', 'r'][0] != seq!['i', 'n'][0]);
            },
            TokenKind::Repeat => {
                assert(w =~= seq!['r', 'e', 'p', 'e', 'a', 't']);
                assert(seq!['r', 'e', 'p', 'e', 'a', 't'][0] != seq!['e', 'l', 's', 'e', 'i', 'f'][0]);
                assert(seq!['r', 'e', 'p', 'e', 'a', 't'][0] != seq!['g', 'l', 'o', 'b', 'a', 'l'][0]);
            },
            TokenKind::Return => {
                assert(w =~= seq!['r', 'e', 't', 'u', 'r', 'n']);
                assert(seq!['r', 'e', 't', 'u', 'r', 'n'][0] != seq!['e', 'l', 's', 'e', 'i', 'f'][0]);
                assert(seq!['r', 'e', 't', 'u', 'r', 'n'][0] != seq!['g', 'l', 'o', 'b', 'a', 'l'][0]);
                assert(seq!['r', 'e', 't', 'u', 'r', 'n'][2] != seq!['r', 'e', 'p', 'e', 'a', 't'][2]);
            },
            TokenKind::Then => {
                assert(w =~= seq!['t', 'h', 'e', 'n']);
                assert(seq!['t', 'h', 'e', 'n'][0] != seq!['e', 'l', 's', 'e'][0]);
                assert(seq!['t', 'h', 'e', 'n'][0] != seq!['g', 'o', 't', 'o'][0]);
            },
            TokenKind::True => {
                assert(w =~= seq!['t', 'r', 'u', 'e']);
                assert(seq!['t', 'r', 'u', 'e'][0] != seq!['e', 'l', 's', 'e'][0]);
                assert(seq!['t', 'r', 'u', 'e'][0] != seq!['g', 'o', 't', 'o'][0]);
                assert(seq!['t', 'r', 'u', 'e'][1] != seq!['t', 'h', 'e', 'n'][1]);
            },
            TokenKind::Until => {
                assert(w =~= seq!['u', 'n', 't', 'i', 'l']);
                assert(seq!['u', 'n', 't', 'i', 'l'][0] != seq!['b', 'r', 'e', 'a', 'k'][0]);
                assert(seq!['u', 'n', 't', 'i', 'l'][0] != seq!['f', 'a', 'l', 's', 'e'][0]);
                assert(seq!['u', 'n', 't', 'i', 'l'][0] != seq!['l', 'o', 'c', 'a', 'l'][0]);
            },
            TokenKind::While => {
                assert(w =~= seq!['w', 'h', 'i', 'l', 'e']);
                assert(seq!['w', 'h', 'i', 'l', 'e'][0] != seq!['b', 'r', 'e', 'a', 'k'][0]);
                assert(seq!['w', 'h', 'i', 'l', 'e'][0] != seq!['f', 'a', 'l', 's', 'e'][0]);
                assert(seq!['w', 'h', 'i', 'l', 'e'][0] != seq!['l', 'o', 'c', 'a', 'l'][0]);
                assert(seq!['w', 'h', 'i', 'l', 'e'][0] != seq!['u', 'n', 't', 'i', 'l'][0]);
            },
            _ => {},
        }
    }
}

/// The kind of a one character symbol token.
pub open spec fn single_symbol(c: char) -> Option<TokenKind> {
    if c == '+' {
        Some(TokenKind::Plus)
    } else if c == '-' {
        Some(TokenKind::Minus)
    } else if c == '*' {
        Some(TokenKind::Star)
    } else if c == '%' {
        Some(TokenKind::Percent)
    } else if c == '^' {
        Some(TokenKind::Caret)
    } else if c == '#' {
        Some(TokenKind::Hash)
    } else if c == '&' {
        Some(TokenKind::Ampersand)
    } else if c == '|' {
        Some(TokenKind::Bar)
    } else if c == ',' {
        Some(TokenKind::Comma)
    } else if c == '(' {
        Some(TokenKind::LeftParen)
    } else if c == ')' {
        Some(TokenKind::RightParen)
    } else if c == '{' {
        Some(TokenKind::LeftCurly)
    } else if c == '}' {
        Some(TokenKind::RightCurly)
    } else if c == ']' {
        Some(TokenKind::RightSquare)
    } else if c == ';' {
        Some(TokenKind::SemiColon)
    } else {
        None
    }
}

/// The token that starts at `i` (which is not the end of the source): its
/// kind and end position, or why there is no token there.
/// Whether `c` starts an operator or punctuation token
pub open spec fn is_operator_start(c: char) -> bool {
    single_symbol(c) is Some || c == '<' || c == '>' || c == '/' || c == '=' || c == '~' || c
        == ':' || c == '.'
}

/// The operator or punctuation token starting at `i`: its kind and end.
pub open spec fn operator_at(s: Seq<char>, i: int) -> (TokenKind, int) {
    let c = s[i];
    let n1 = char_at(s, i + 1);
    let n2 = char_at(s, i + 2);
    if single_symbol(c) is Some {
        (single_symbol(c)->0, i + 1)
    } else if c == '<' {
        if n1 == Some('<') {
            (TokenKind::LessLess, i + 2)
        } else if n1 == Some('=') {
            (TokenKind::LessEqual, i + 2)
        } else {
            (TokenKind::Less, i + 1)
        }
    } else if c == '>' {
        if n1 == Some('>') {
            (TokenKind::GreaterGreater, i + 2)
        } else if n1 == Some('=') {
            (TokenKind::GreaterEqual, i + 2)
        } else {
            (TokenKind::Greater, i + 1)
        }
    } else if c == '/' {
        if n1 == Some('/') {
            (TokenKind::SlashSlash, i + 2)
        } else {
            (TokenKind::Slash, i + 1)
        }
    } else if c == '=' {
        if n1 == Some('=') {
            (TokenKind::EqualEqual, i + 2)
        } else {
            (TokenKind::Equal, i + 1)
        }
    } else if c == '~' {
        if n1 == Some('=') {
            (TokenKind::TildeEqual, i + 2)
        } else {
            (TokenKind::Tilde, i + 1)
        }
    } else if c == ':' {
        if n1 == Some(':') {
            (TokenKind::ColonColon, i + 2)
        } else {
            (TokenKind::Colon, i + 1)
        }
    } else {
        if n1 == Some('.') {
            if n2 == Some('.') {
                (TokenKind::DotDotDot, i + 3)
            } else {
                (TokenKind::DotDot, i + 2)
            }
        } else {
            (TokenKind::Dot, i + 1)
        }
    }
}

/// The token that starts at `i` (which is not the end of the source): its
/// kind and end position, or why there is no token there.
pub open spec fn token_at(s: Seq<char>, i: int, line: int) -> Result<(TokenKind, int), LexError> {
    let c = s[i];
    if is_operator_start(c) {
        Ok(operator_at(s, i))
    } else if c == '[' {
        match long_open_level(s, i) {
            Some(level) => match first_close(s, i + level + 2, level) {
                Some(e) => Ok((TokenKind::String, e + level + 2)),
                None => Err(LexError::UnterminatedLongString { line: line as usize }),
            },
            None => Ok((TokenKind::LeftSquare, i + 1)),
        }
    } else if c == '"' || c == '\'' {
        let e = string_end(s, i + 1, c);
        if s[e - 1] == c {
            Ok((TokenKind::String, e))
        } else {
            Err(LexError::UnterminatedString { line: line as usize })
        }
    } else if is_digit(c) {
        Ok((TokenKind::Number, numeral_end(s, i)))
    } else if is_name_start(c) {
        Ok((keyword_kind(s.subrange(i, name_end(s, i))), name_end(s, i)))
    } else {
        Err(LexError::UnexpectedCharacter { ch: c, line: line as usize })
    }
}

/// One step of the lexer from position `i` on `line`: the token kind, where
/// its text starts and ends, and the line it is on; or the error.
pub open spec fn lex_step(s: Seq<char>, i: int, line: int) -> Result<
    (TokenKind, int, int, int),
    LexError,
> {
    match skip_space(s, i, line) {
        Err(l) => Err(LexError::UnterminatedLongComment { line: l as usize }),
        Ok((p, l)) => if p >= s.len() {
            Ok((TokenKind::Eof, p, p, l))
        } else {
            match token_at(s, p, l) {
                Ok((k, e)) => Ok((k, p, e, l)),
                Err(err) => Err(err),
            }
        },
    }
}


/// Kind of a name: a keyword, or `Name`.
pub fn keyword(w: &[char]) -> (kind: TokenKind)
    ensures
        kind == keyword_kind(w@),
{
    if w.len() == 3 && w[0] == 'a' && w[1] == 'n' && w[2] == 'd' {
        assert(w@ =~= seq!['a', 'n', 'd']);
        TokenKind::And
    } else if w.len() == 5 && w[0] == 'b' && w[1] == 'r' && w[2] == 'e' && w[3] == 'a' && w[4] == 'k' {
        assert(w@ =~= seq!['b', 'r', 'e', 'a', 'k']);
        TokenKind::Break
    } else if w.len() == 2 && w[0] == 'd' && w[1] == 'o' {
        assert(w@ =~= seq!['d', 'o']);
        TokenKind::Do
    } else if w.len() == 4 && w[0] == 'e' && w[1] == 'l' && w[2] == 's' && w[3] == 'e' {
        assert(w@ =~= seq!['e', 'l', 's', 'e']);
        TokenKind::Else
    } else if w.len() == 6 && w[0] == 'e' && w[1] == 'l' && w[2] == 's' && w[3] == 'e' && w[4] == 'i' && w[5] == 'f' {
        assert(w@ =~= seq!['e', 'l', 's', 'e', 'i', 'f']);
        TokenKind::Elseif
    } else if w.len() == 3 && w[0] == 'e' && w[1] == 'n' && w[2] == 'd' {
        assert(w@ =~= seq!['e', 'n', 'd']);
        TokenKind::End
    } else if w.len() == 5 && w[0] == 'f' && w[1] == 'a' && w[2] == 'l' && w[3] == 's' && w[4] == 'e' {
        assert(w@ =~= seq!['f', 'a', 'l', 's', 'e']);
        TokenKind::False
    } else if w.len() == 3 && w[0] == 'f' && w[1] == 'o' && w[2] == 'r' {
        assert(w@ =~= seq!['f', 'o', 'r']);
        TokenKind::For
    } else if w.len() == 8 && w[0] == 'f' && w[1] == 'u' && w[2] == 'n' && w[3] == 'c' && w[4] == 't' && w[5] == 'i' && w[6] == 'o' && w[7] == 'n' {
        assert(w@ =~= seq!['f', 'u', 'n', 'c', 't', 'i', 'o', 'n']);
        TokenKind::Function
    } else if w.len() == 6 && w[0] == 'g' && w[1] == 'l' && w[2] == 'o' && w[3] == 'b' && w[4] == 'a' && w[5] == 'l' {
        assert(w@ =~= seq!['g', 'l', 'o', 'b', 'a', 'l']);
        TokenKind::Global
    } else if w.len() == 4 && w[0] == 'g' && w[1] == 'o' && w[2] == 't' && w[3] == 'o' {
        assert(w@ =~= seq!['g', 'o', 't', 'o']);
        TokenKind::Goto
    } else if w.len() == 2 && w[0] == 'i' && w[1] == 'f' {
        assert(w@ =~= seq!['i', 'f']);
        TokenKind::If
    } else if w.len() == 2 && w[0] == 'i' && w[1] == 'n' {
        assert(w@ =~= seq!['i', 'n']);
        TokenKind::In
    } else if w.len() == 5 && w[0] == 'l' && w[1] == 'o' && w[2] == 'c' && w[3] == 'a' && w[4] == 'l' {
        assert(w@ =~= seq!['l', 'o', 'c', 'a', 'l']);
        TokenKind::Local
    } else if w.len() == 3 && w[0] == 'n' && w[1] == 'i' && w[2] == 'l' {
        assert(w@ =~= seq!['n', 'i', 'l']);
        TokenKind::Nil
    } else if w.len() == 3 && w[0] == 'n' && w[1] == 'o' && w[2] == 't' {
        assert(w@ =~= seq!['n', 'o', 't']);
        TokenKind::Not
    } else if w.len() == 2 && w[0] == 'o' && w[1] == 'r' {
        assert(w@ =~= seq!['o', 'r']);
        TokenKind::Or
    } else if w.len() == 6 && w[0] == 'r' && w[1] == 'e' && w[2] == 'p' && w[3] == 'e' && w[4] == 'a' && w[5] == 't' {
        assert(w@ =~= seq!['r', 'e', 'p', 'e', 'a', 't']);
        TokenKind::Repeat
    } else if w.len() == 6 && w[0] == 'r' && w[1] == 'e' && w[2] == 't' && w[3] == 'u' && w[4] == 'r' && w[5] == 'n' {
        assert(w@ =~= seq!['r', 'e', 't', 'u', 'r', 'n']);
        TokenKind::Return
    } else if w.len() == 4 && w[0] == 't' && w[1] == 'h' && w[2] == 'e' && w[3] == 'n' {
        assert(w@ =~= seq!['t', 'h', 'e', 'n']);
        TokenKind::Then
    } else if w.len() == 4 && w[0] == 't' && w[1] == 'r' && w[2] == 'u' && w[3] == 'e' {
        assert(w@ =~= seq!['t', 'r', 'u', 'e']);
        TokenKind::True
    } else if w.len() == 5 && w[0] == 'u' && w[1] == 'n' && w[2] == 't' && w[3] == 'i' && w[4] == 'l' {
        assert(w@ =~= seq!['u', 'n', 't', 'i', 'l']);
        TokenKind::Until
    } else if w.len() == 5 && w[0] == 'w' && w[1] == 'h' && w[2] == 'i' && w[3] == 'l' && w[4] == 'e' {
        assert(w@ =~= seq!['w', 'h', 'i', 'l', 'e']);
        TokenKind::While
    } else {
        TokenKind::Name
    }
}


/// Once the lexer has reached the end of the source, every further step
/// gives the end-of-file token again, at the same place and line.
pub proof fn lemma_eof_forever(s: Seq<char>, i: int, line: int)
    requires
        0 <= i <= s.len(),
        lex_step(s, i, line) matches Ok((k, p, e, l)) && k == TokenKind::Eof,
    ensures
        ({
            let (k, p, e, l) = lex_step(s, i, line)->Ok_0;
            lex_step(s, e, l) == Ok::<(TokenKind, int, int, int), LexError>(
                (TokenKind::Eof, e, e, l),
            )
        }),
{
    lemma_skip_space_bounds(s, i, line);
}

/// Skipping whitespace never moves backwards nor past the end.
pub proof fn lemma_skip_space_bounds(s: Seq<char>, i: int, line: int)
    requires
        0 <= i <= s.len(),
    ensures
        skip_space(s, i, line) matches Ok((p, l)) ==> i <= p <= s.len(),
    decreases s.len() - i,
{
    if i < s.len() {
        if is_blank(s[i]) {
            lemma_skip_space_bounds(s, i + 1, line);
        } else if s[i] == '\n' {
            lemma_skip_space_bounds(s, i + 1, line + 1);
        } else if s[i] == '-' && char_at(s, i + 1) == Some('-') {
            match comment_end(s, i + 2) {
                Some(e) => if i < e <= s.len() {
                    lemma_skip_space_bounds(s, e, line);
                },
                None => {},
            }
        }
    }
}

/// The kind of a one character symbol token.
pub fn single_symbol_kind(c: char) -> (kind: Option<TokenKind>)
    ensures
        kind == single_symbol(c),
{
    if c == '+' {
        Some(TokenKind::Plus)
    } else if c == '-' {
        Some(TokenKind::Minus)
    } else if c == '*' {
        Some(TokenKind::Star)
    } else if c == '%' {
        Some(TokenKind::Percent)
    } else if c == '^' {
        Some(TokenKind::Caret)
    } else if c == '#' {
        Some(TokenKind::Hash)
    } else if c == '&' {
        Some(TokenKind::Ampersand)
    } else if c == '|' {
        Some(TokenKind::Bar)
    } else if c == ',' {
        Some(TokenKind::Comma)
    } else if c == '(' {
        Some(TokenKind::LeftParen)
    } else if c == ')' {
        Some(TokenKind::RightParen)
    } else if c == '{' {
        Some(TokenKind::LeftCurly)
    } else if c == '}' {
        Some(TokenKind::RightCurly)
    } else if c == ']' {
        Some(TokenKind::RightSquare)
    } else if c == ';' {
        Some(TokenKind::SemiColon)
    } else {
        None
    }
}

impl<'a> Lexer<'a> {
    /// The whole source text
    pub closed spec fn source(&self) -> Seq<char> {
        self.src@
    }

    /// Position of the next character to read
    pub closed spec fn position(&self) -> int {
        self.current as int
    }

    /// Line the lexer is on
    pub closed spec fn line(&self) -> int {
        self.line as int
    }

    /// Internal consistency of the lexer state
    pub closed spec fn wf(&self) -> bool {
        &&& self.start <= self.current <= self.src@.len()
        &&& 1 <= self.line <= self.current + 1
        &&& self.src@.len() < usize::MAX
    }

    /// A consistent lexer never reads past the end of its source
    pub proof fn lemma_position_bound(&self)
        requires
            self.wf(),
        ensures
            0 <= self.position() <= self.source().len(),
            self.line() >= 1,
    {
    }

    /// Create a lexer for a source file
    pub fn new(src: &'a [char]) -> (lexer: Self)
        requires
            src@.len() < usize::MAX,
        ensures
            lexer.wf(),
            lexer.source() == src@,
            lexer.position() == 0,
            lexer.line() == 1,
    {
        Self { src, start: 0, current: 0, line: 1 }
    }

    /// An end-of-file token that refers to no source text, on line 0
    pub fn empty_token(&self) -> (tok: Token<'a>)
        requires
            self.wf(),
        ensures
            tok.kind == TokenKind::Eof,
            tok.value@.len() == 0,
            tok.line == 0,
    {
        Token { kind: TokenKind::Eof, value: &self.src[0..0], line: 0 }
    }

    /// Get the next token.  Will return an EOF token forever if at the end of
    /// the source file.
    pub fn next(&mut self) -> (res: Result<Token<'a>, LexError>)
        requires
            old(self).wf(),
        ensures
            final(self).wf(),
            final(self).source() == old(self).source(),
            old(self).position() <= final(self).position(),
            res matches Ok(t) ==> (t.kind == TokenKind::Eof ==> final(self).position()
                == final(self).source().len()),
            res matches Ok(t) ==> (t.kind != TokenKind::Eof ==> old(self).position()
                < final(self).position()),
            match lex_step(old(self).source(), old(self).position(), old(self).line()) {
                Ok((k, p, e, l)) => {
                    &&& res is Ok
                    &&& res->Ok_0.kind == k
                    &&& res->Ok_0.value@ == old(self).source().subrange(p, e)
                    &&& res->Ok_0.line == l
                    &&& final(self).position() == e
                    &&& final(self).line() == l
                },
                Err(err) => res == Err::<Token<'a>, LexError>(err),
            },
    {
        self.skip_whitespace()?;
        self.start = self.current;
        if self.current >= self.src.len() {
            return Ok(self.tok(TokenKind::Eof));
        }
        let ch = self.src[self.current];
        self.current = self.current + 1;
        if single_symbol_kind(ch).is_some() || ch == '<' || ch == '>' || ch == '/' || ch == '='
            || ch == '~' || ch == ':' || ch == '.' {
            Ok(self.operator(ch))
        } else if ch == '[' {
            self.square()
        } else if ch == '"' || ch == '\'' {
            self.string(ch)
        } else if '0' <= ch && ch <= '9' {
            Ok(self.number())
        } else if ('a' <= ch && ch <= 'z') || ('A' <= ch && ch <= 'Z') || ch == '_' {
            Ok(self.ident())
        } else {
            Err(LexError::UnexpectedCharacter { ch, line: self.line })
        }
    }


    /// Lex an operator or punctuation token whose first character `ch` was
    /// just consumed
    fn operator(&mut self, ch: char) -> (tok: Token<'a>)
        requires
            old(self).wf(),
            old(self).current == old(self).start + 1,
            old(self).src@[old(self).start as int] == ch,
            is_operator_start(ch),
        ensures
            final(self).wf(),
            final(self).src == old(self).src,
            final(self).start == old(self).start,
            final(self).line == old(self).line,
            old(self).current <= final(self).current,
            tok.kind == operator_at(old(self).src@, old(self).start as int).0,
            final(self).current == operator_at(old(self).src@, old(self).start as int).1,
            tok.value@ == old(self).src@.subrange(
                old(self).start as int,
                operator_at(old(self).src@, old(self).start as int).1,
            ),
            tok.line == old(self).line,
    {
        if let Some(kind) = single_symbol_kind(ch) {
            self.tok(kind)
        } else if ch == '<' {
            if self.is('<') {
                self.tok(TokenKind::LessLess)
            } else if self.is('=') {
                self.tok(TokenKind::LessEqual)
            } else {
                self.tok(TokenKind::Less)
            }
        } else if ch == '>' {
            if self.is('>') {
                self.tok(TokenKind::GreaterGreater)
            } else if self.is('=') {
                self.tok(TokenKind::GreaterEqual)
            } else {
                self.tok(TokenKind::Greater)
            }
        } else if ch == '/' {
            if self.is('/') {
                self.tok(TokenKind::SlashSlash)
            } else {
                self.tok(TokenKind::Slash)
            }
        } else if ch == '=' {
            if self.is('=') {
                self.tok(TokenKind::EqualEqual)
            } else {
                self.tok(TokenKind::Equal)
            }
        } else if ch == '~' {
            if self.is('=') {
                self.tok(TokenKind::TildeEqual)
            } else {
                self.tok(TokenKind::Tilde)
            }
        } else if ch == ':' {
            if self.is(':') {
                self.tok(TokenKind::ColonColon)
            } else {
                self.tok(TokenKind::Colon)
            }
        } else {
            if self.is('.') {
                if self.is('.') {
                    self.tok(TokenKind::DotDotDot)
                } else {
                    self.tok(TokenKind::DotDot)
                }
            } else {
                self.tok(TokenKind::Dot)
            }
        }
    }


    /// Consume characters up to and including the first closing long bracket
    /// of the given level.  Returns false if the source ends before one.
    fn skip_long_body(&mut self, len: usize) -> (found: bool)
        requires
            old(self).wf(),
        ensures
            final(self).wf(),
            final(self).src == old(self).src,
            final(self).start == old(self).start,
            final(self).line == old(self).line,
            old(self).current <= final(self).current,
            found == first_close(old(self).src@, old(self).current as int, len as nat) is Some,
            found ==> final(self).current == first_close(
                old(self).src@,
                old(self).current as int,
                len as nat,
            )->0 + len + 2,
    {
        let ghost s = self.src@;
        loop
            invariant
                self.wf(),
                self.src@ == s,
                self.src == old(self).src,
                self.start == old(self).start,
                self.line == old(self).line,
                old(self).current <= self.current,
                first_close(s, self.current as int, len as nat) == first_close(
                    s,
                    old(self).current as int,
                    len as nat,
                ),
            decreases self.src@.len() - self.current,
        {
            let ghost cur = self.current as int;
            if self.close_long_bracket(len) {
                assert(first_close(s, cur, len as nat) == Some(cur));
                return true;
            }
            if self.current >= self.src.len() {
                return false;
            }
            self.current = self.current + 1;
        }
    }

    /// Parse tokens starting with a '['
    fn square(&mut self) -> (res: Result<Token<'a>, LexError>)
        requires
            old(self).wf(),
            old(self).current == old(self).start + 1,
            old(self).src@[old(self).start as int] == '[',
        ensures
            final(self).wf(),
            final(self).src == old(self).src,
            final(self).start == old(self).start,
            final(self).line == old(self).line,
            old(self).current <= final(self).current,
            match token_at(old(self).src@, old(self).start as int, old(self).line as int) {
                Ok((k, e)) => {
                    &&& res is Ok
                    &&& res->Ok_0.kind == k
                    &&& res->Ok_0.value@ == old(self).src@.subrange(old(self).start as int, e)
                    &&& res->Ok_0.line == old(self).line
                    &&& final(self).current == e
                },
                Err(err) => res == Err::<Token<'a>, LexError>(err),
            },
    {
        if let Some(len) = self.open_long_bracket(true) {
            if !self.skip_long_body(len) {
                return Err(LexError::UnterminatedLongString { line: self.line });
            }
            Ok(self.tok(TokenKind::String))
        } else {
            Ok(self.tok(TokenKind::LeftSquare))
        }
    }

    /// Parse a string literal, does not validate escape sequences
    fn string(&mut self, start: char) -> (res: Result<Token<'a>, LexError>)
        requires
            old(self).wf(),
            old(self).current == old(self).start + 1,
            old(self).src@[old(self).start as int] == start,
            start == '"' || start == '\'',
        ensures
            final(self).wf(),
            final(self).src == old(self).src,
            final(self).start == old(self).start,
            final(self).line == old(self).line,
            old(self).current <= final(self).current,
            match token_at(old(self).src@, old(self).start as int, old(self).line as int) {
                Ok((k, e)) => {
                    &&& res is Ok
                    &&& res->Ok_0.kind == k
                    &&& res->Ok_0.value@ == old(self).src@.subrange(old(self).start as int, e)
                    &&& res->Ok_0.line == old(self).line
                    &&& final(self).current == e
                },
                Err(err) => res == Err::<Token<'a>, LexError>(err),
            },
    {
        let ghost s = self.src@;
        while self.current < self.src.len()
            invariant_except_break
                string_end(s, self.current as int, start) == string_end(
                    s,
                    old(self).current as int,
                    start,
                ),
            invariant
                self.wf(),
                self.src@ == s,
                self.src == old(self).src,
                self.start == old(self).start,
                self.line == old(self).line,
                old(self).current <= self.current,
            ensures
                self.current == string_end(s, old(self).current as int, start),
            decreases self.src@.len() - self.current,
        {
            let ch = self.src[self.current];
            self.current = self.current + 1;
            if ch == '\\' {
                if self.current < self.src.len() {
                    self.current = self.current + 1;
                }
            } else if ch == start {
                break;
            }
        }
        let tok = self.tok(TokenKind::String);
        if tok.value[tok.value.len() - 1] != start {
            return Err(LexError::UnterminatedString { line: self.line });
        }
        Ok(tok)
    }

    /// Parse number literals
    fn number(&mut self) -> (tok: Token<'a>)
        requires
            old(self).wf(),
            old(self).current == old(self).start + 1,
            is_digit(old(self).src@[old(self).start as int]),
        ensures
            final(self).wf(),
            final(self).src == old(self).src,
            final(self).start == old(self).start,
            final(self).line == old(self).line,
            old(self).current <= final(self).current,
            final(self).current == numeral_end(old(self).src@, old(self).start as int),
            tok.kind == TokenKind::Number,
            tok.value@ == old(self).src@.subrange(
                old(self).start as int,
                numeral_end(old(self).src@, old(self).start as int),
            ),
            tok.line == old(self).line,
    {
        let ghost s = self.src@;
        let first = self.src[self.start];
        let mut hex = false;
        if first == '0' && self.current < self.src.len() && (self.src[self.current] == 'x'
            || self.src[self.current] == 'X') {
            hex = true;
            self.current = self.current + 1;
        }
        while self.current < self.src.len()
            invariant
                self.wf(),
                self.src@ == s,
                self.src == old(self).src,
                self.start == old(self).start,
                self.line == old(self).line,
                old(self).current <= self.current,
                number_end(s, self.current as int, hex) == numeral_end(s, self.start as int),
            ensures
                number_end(s, self.current as int, hex) == self.current,
            decreases self.src@.len() - self.current,
        {
            let ch = self.src[self.current];
            let expo = if hex {
                ch == 'p' || ch == 'P'
            } else {
                ch == 'e' || ch == 'E'
            };
            if expo {
                self.current = self.current + 1;
                if self.current < self.src.len() && (self.src[self.current] == '+'
                    || self.src[self.current] == '-') {
                    self.current = self.current + 1;
                }
            } else if ('0' <= ch && ch <= '9') || ('a' <= ch && ch <= 'f') || ('A' <= ch && ch
                <= 'F') || ch == '.' {
                self.current = self.current + 1;
            } else {
                break;
            }
        }
        self.tok(TokenKind::Number)
    }

    /// Parse an identifier
    fn ident(&mut self) -> (tok: Token<'a>)
        requires
            old(self).wf(),
            old(self).current == old(self).start + 1,
            is_name_start(old(self).src@[old(self).start as int]),
        ensures
            final(self).wf(),
            final(self).src == old(self).src,
            final(self).start == old(self).start,
            final(self).line == old(self).line,
            old(self).current <= final(self).current,
            final(self).current == name_end(old(self).src@, old(self).start as int),
            tok.kind == keyword_kind(tok.value@),
            tok.value@ == old(self).src@.subrange(
                old(self).start as int,
                name_end(old(self).src@, old(self).start as int),
            ),
            tok.line == old(self).line,
    {
        let ghost s = self.src@;
        while self.current < self.src.len()
            invariant
                self.wf(),
                self.src@ == s,
                self.src == old(self).src,
                self.start == old(self).start,
                self.line == old(self).line,
                old(self).current <= self.current,
                name_end(s, self.current as int) == name_end(s, self.start as int),
            ensures
                name_end(s, self.current as int) == self.current,
            decreases self.src@.len() - self.current,
        {
            let ch = self.src[self.current];
            if ('a' <= ch && ch <= 'z') || ('A' <= ch && ch <= 'Z') || ch == '_' || ('0' <= ch
                && ch <= '9') {
                self.current = self.current + 1;
            } else {
                break;
            }
        }
        let value = &self.src[self.start..self.current];
        Token { kind: keyword(value), value, line: self.line }
    }

    /// Skip all whitespace and comments
    fn skip_whitespace(&mut self) -> (res: Result<(), LexError>)
        requires
            old(self).wf(),
        ensures
            final(self).wf(),
            final(self).src == old(self).src,
            final(self).start == old(self).start,
            old(self).current <= final(self).current,
            match skip_space(old(self).src@, old(self).current as int, old(self).line as int) {
                Ok((p, l)) => res is Ok && final(self).current == p && final(self).line == l,
                Err(l) => res == Err::<(), LexError>(
                    LexError::UnterminatedLongComment { line: l as usize },
                ),
            },
    {
        let ghost s = self.src@;
        loop
            invariant
                self.wf(),
                self.src@ == s,
                self.src == old(self).src,
                self.start == old(self).start,
                old(self).current <= self.current,
                skip_space(s, self.current as int, self.line as int) == skip_space(
                    s,
                    old(self).current as int,
                    old(self).line as int,
                ),
            decreases self.src@.len() - self.current,
        {
            let ch = match self.peek() {
                Some(c) => c,
                None => return Ok(()),
            };
            if ch == ' ' || ch == '\r' || ch == '\t' || ch == '\x0B' || ch == '\x0C' {
                self.current = self.current + 1;
            } else if ch == '\n' {
                self.line = self.line + 1;
                self.current = self.current + 1;
            } else if ch == '-' {
                if !self.comment()? {
                    return Ok(());
                }
            } else {
                return Ok(());
            }
        }
    }

    /// Attempt to skip a comment, assuming that a '-' has already been peeked.
    /// Returns true if it skipped anything and false if no comment was detected.
    fn comment(&mut self) -> (res: Result<bool, LexError>)
        requires
            old(self).wf(),
            old(self).current < old(self).src@.len(),
            old(self).src@[old(self).current as int] == '-',
        ensures
            final(self).wf(),
            final(self).src == old(self).src,
            final(self).start == old(self).start,
            final(self).line == old(self).line,
            old(self).current <= final(self).current,
            match res {
                Ok(true) => {
                    &&& char_at(old(self).src@, old(self).current + 1) == Some('-')
                    &&& comment_end(old(self).src@, old(self).current + 2) == Some(
                        final(self).current as int,
                    )
                    &&& old(self).current < final(self).current
                },
                Ok(false) => {
                    &&& char_at(old(self).src@, old(self).current + 1) != Some('-')
                    &&& final(self).current == old(self).current
                },
                Err(e) => {
                    &&& char_at(old(self).src@, old(self).current + 1) == Some('-')
                    &&& comment_end(old(self).src@, old(self).current + 2) is None
                    &&& e == LexError::UnterminatedLongComment { line: old(self).line }
                },
            },
    {
        if self.peek_next() != Some('-') {
            return Ok(false);
        }
        self.current = self.current + 2;
        let ghost s = self.src@;
        let ghost text = self.current as int;
        if let Some(len) = self.open_long_bracket(false) {
            if !self.skip_long_body(len) {
                return Err(LexError::UnterminatedLongComment { line: self.line });
            }
        } else {
            while self.current < self.src.len() && self.src[self.current] != '\n'
                invariant
                    self.wf(),
                    self.src@ == s,
                self.src == old(self).src,
                    self.start == old(self).start,
                    self.line == old(self).line,
                    old(self).current < self.current,
                    long_open_level(s, text) is None,
                    line_end(s, self.current as int) == line_end(s, text),
                decreases self.src@.len() - self.current,
            {
                self.current = self.current + 1;
            }
        }
        Ok(true)
    }

    /// Try to parse an opening long bracket, if succeeded return its length,
    /// otherwise don't consume anything.  If the leading '[' has already been
    /// consumed from the stream, pass true as the argument.
    fn open_long_bracket(&mut self, opened: bool) -> (res: Option<usize>)
        requires
            old(self).wf(),
            opened ==> old(self).current >= 1 && old(self).src@[old(self).current - 1] == '[',
        ensures
            final(self).wf(),
            final(self).src == old(self).src,
            final(self).start == old(self).start,
            final(self).line == old(self).line,
            ({
                let at = if opened {
                    old(self).current - 1
                } else {
                    old(self).current as int
                };
                &&& res matches Some(l) ==> long_open_level(old(self).src@, at) == Some(l as nat)
                    && final(self).current == at + l + 2
                &&& res is None ==> long_open_level(old(self).src@, at) is None
                    && final(self).current == old(self).current
            }),
    {
        let ghost s = self.src@;
        let ghost at: int = if opened {
            self.current - 1
        } else {
            self.current as int
        };
        let mut p = self.current;
        if !opened {
            if p >= self.src.len() || self.src[p] != '[' {
                return None;
            }
            p = p + 1;
        }
        assert(p == at + 1);
        let mut length: usize = 0;
        while p < self.src.len() && self.src[p] == '='
            invariant
                self.wf(),
                self.src@ == s,
                self.src == old(self).src,
                p <= s.len(),
                p == at + 1 + length,
                eq_run(s, at + 1) == length + eq_run(s, p as int),
            decreases self.src@.len() - p,
        {
            length = length + 1;
            p = p + 1;
        }
        if p >= self.src.len() || self.src[p] != '[' {
            return None;
        }
        self.current = p + 1;
        Some(length)
    }

    /// Try to parse a closing long bracket, if succeeded return true, otherwise
    /// don't consume anything and return false
    fn close_long_bracket(&mut self, len: usize) -> (res: bool)
        requires
            old(self).wf(),
        ensures
            final(self).wf(),
            final(self).src == old(self).src,
            final(self).start == old(self).start,
            final(self).line == old(self).line,
            res == close_at(old(self).src@, old(self).current as int, len as nat),
            res ==> final(self).current == old(self).current + len + 2,
            !res ==> final(self).current == old(self).current,
    {
        let ghost s = self.src@;
        let mut p = self.current;
        if p >= self.src.len() || self.src[p] != ']' {
            return false;
        }
        p = p + 1;
        let mut i: usize = 0;
        while i < len
            invariant
                self.wf(),
                self.src@ == s,
                self.src == old(self).src,
                p == self.current + 1 + i,
                i <= len,
                p <= s.len(),
                s[self.current as int] == ']',
                forall|j: int| 1 <= j <= i ==> #[trigger] s[self.current + j] == '=',
            decreases len - i,
        {
            if p >= self.src.len() || self.src[p] != '=' {
                assert(!close_at(s, self.current as int, len as nat)) by {
                    if p < s.len() {
                        assert(s[self.current + (i + 1)] == s[p as int]);
                    }
                }
                return false;
            }
            p = p + 1;
            i = i + 1;
        }
        if p >= self.src.len() || self.src[p] != ']' {
            return false;
        }
        assert(close_at(s, self.current as int, len as nat));
        self.current = p + 1;
        true
    }

    /// If the next character is the input, consume it and return true, otherwise
    /// return false.
    fn is(&mut self, ch: char) -> (ret: bool)
        requires
            old(self).wf(),
        ensures
            final(self).wf(),
            final(self).src == old(self).src,
            final(self).start == old(self).start,
            final(self).line == old(self).line,
            ret == (char_at(old(self).src@, old(self).current as int) == Some(ch)),
            ret ==> final(self).current == old(self).current + 1,
            !ret ==> final(self).current == old(self).current,
    {
        let ret = match self.peek() {
            Some(c) => c == ch,
            None => false,
        };
        if ret {
            self.current = self.current + 1;
        }
        ret
    }

    /// Get the next character without consuming it
    fn peek(&self) -> (c: Option<char>)
        requires
            self.wf(),
        ensures
            c == char_at(self.src@, self.current as int),
    {
        if self.current < self.src.len() {
            Some(self.src[self.current])
        } else {
            None
        }
    }

    /// Get the character after next without consuming it
    fn peek_next(&self) -> (c: Option<char>)
        requires
            self.wf(),
        ensures
            c == char_at(self.src@, self.current + 1),
    {
        if self.current + 1 < self.src.len() {
            Some(self.src[self.current + 1])
        } else {
            None
        }
    }

    /// Create a token all characters consumed so far this token
    fn tok(&self, kind: TokenKind) -> (tok: Token<'a>)
        requires
            self.wf(),
        ensures
            tok.kind == kind,
            tok.value@ == self.src@.subrange(self.start as int, self.current as int),
            tok.line == self.line,
    {
        Token { kind, value: &self.src[self.start..self.current], line: self.line }
    }
}

/// The name of a token kind, as its `Debug` form writes it
pub open spec fn kind_name(k: TokenKind) -> Seq<char> {
    match k {
                TokenKind::Eof => "Eof"@,
                TokenKind::Plus => "Plus"@,
                TokenKind::Minus => "Minus"@,
                TokenKind::Star => "Star"@,
                TokenKind::Percent => "Percent"@,
                TokenKind::Caret => "Caret"@,
                TokenKind::Hash => "Hash"@,
                TokenKind::Ampersand => "Ampersand"@,
                TokenKind::Bar => "Bar"@,
                TokenKind::Comma => "Comma"@,
                TokenKind::LeftParen => "LeftParen"@,
                TokenKind::RightParen => "RightParen"@,
                TokenKind::LeftCurly => "LeftCurly"@,
                TokenKind::RightCurly => "RightCurly"@,
                TokenKind::LeftSquare => "LeftSquare"@,
                TokenKind::RightSquare => "RightSquare"@,
                TokenKind::SemiColon => "SemiColon"@,
                TokenKind::Less => "Less"@,
                TokenKind::LessLess => "LessLess"@,
                TokenKind::LessEqual => "LessEqual"@,
                TokenKind::Greater => "Greater"@,
                TokenKind::GreaterGreater => "GreaterGreater"@,
                TokenKind::GreaterEqual => "GreaterEqual"@,
                TokenKind::Slash => "Slash"@,
                TokenKind::SlashSlash => "SlashSlash"@,
                TokenKind::Equal => "Equal"@,
                TokenKind::EqualEqual => "EqualEqual"@,
                TokenKind::Tilde => "Tilde"@,
                TokenKind::TildeEqual => "TildeEqual"@,
                TokenKind::Colon => "Colon"@,
                TokenKind::ColonColon => "ColonColon"@,
                TokenKind::Dot => "Dot"@,
                TokenKind::DotDot => "DotDot"@,
                TokenKind::DotDotDot => "DotDotDot"@,
                TokenKind::Name => "Name"@,
                TokenKind::String => "String"@,
                TokenKind::Number => "Number"@,
                TokenKind::And => "And"@,
                TokenKind::Break => "Break"@,
                TokenKind::Do => "Do"@,
                TokenKind::Else => "Else"@,
                TokenKind::Elseif => "Elseif"@,
                TokenKind::End => "End"@,
                TokenKind::False => "False"@,
                TokenKind::For => "For"@,
                TokenKind::Function => "Function"@,
                TokenKind::Global => "Global"@,
                TokenKind::Goto => "Goto"@,
                TokenKind::If => "If"@,
                TokenKind::In => "In"@,
                TokenKind::Local => "Local"@,
                TokenKind::Nil => "Nil"@,
                TokenKind::Not => "Not"@,
                TokenKind::Or => "Or"@,
                TokenKind::Repeat => "Repeat"@,
                TokenKind::Return => "Return"@,
                TokenKind::Then => "Then"@,
                TokenKind::True => "True"@,
                TokenKind::Until => "Until"@,
                TokenKind::While => "While"@,
    }
}

impl TokenKind {
    /// The name of the kind, as its `Debug` form writes it
    pub fn name(&self) -> (res: &'static str)
        ensures
            res@ == kind_name(*self),
    {
        match self {
            TokenKind::Eof => "Eof",
            TokenKind::Plus => "Plus",
            TokenKind::Minus => "Minus",
            TokenKind::Star => "Star",
            TokenKind::Percent => "Percent",
            TokenKind::Caret => "Caret",
            TokenKind::Hash => "Hash",
            TokenKind::Ampersand => "Ampersand",
            TokenKind::Bar => "Bar",
            TokenKind::Comma => "Comma",
            TokenKind::LeftParen => "LeftParen",
            TokenKind::RightParen => "RightParen",
            TokenKind::LeftCurly => "LeftCurly",
            TokenKind::RightCurly => "RightCurly",
            TokenKind::LeftSquare => "LeftSquare",
            TokenKind::RightSquare => "RightSquare",
            TokenKind::SemiColon => "SemiColon",
            TokenKind::Less => "Less",
            TokenKind::LessLess => "LessLess",
            TokenKind::LessEqual => "LessEqual",
            TokenKind::Greater => "Greater",
            TokenKind::GreaterGreater => "GreaterGreater",
            TokenKind::GreaterEqual => "GreaterEqual",
            TokenKind::Slash => "Slash",
            TokenKind::SlashSlash => "SlashSlash",
            TokenKind::Equal => "Equal",
            TokenKind::EqualEqual => "EqualEqual",
            TokenKind::Tilde => "Tilde",
            TokenKind::TildeEqual => "TildeEqual",
            TokenKind::Colon => "Colon",
            TokenKind::ColonColon => "ColonColon",
            TokenKind::Dot => "Dot",
            TokenKind::DotDot => "DotDot",
            TokenKind::DotDotDot => "DotDotDot",
            TokenKind::Name => "Name",
            TokenKind::String => "String",
            TokenKind::Number => "Number",
            TokenKind::And => "And",
            TokenKind::Break => "Break",
            TokenKind::Do => "Do",
            TokenKind::Else => "Else",
            TokenKind::Elseif => "Elseif",
            TokenKind::End => "End",
            TokenKind::False => "False",
            TokenKind::For => "For",
            TokenKind::Function => "Function",
            TokenKind::Global => "Global",
            TokenKind::Goto => "Goto",
            TokenKind::If => "If",
            TokenKind::In => "In",
            TokenKind::Local => "Local",
            TokenKind::Nil => "Nil",
            TokenKind::Not => "Not",
            TokenKind::Or => "Or",
            TokenKind::Repeat => "Repeat",
            TokenKind::Return => "Return",
            TokenKind::Then => "Then",
            TokenKind::True => "True",
            TokenKind::Until => "Until",
            TokenKind::While => "While",
        }
    }
}

/// Spaces before a line number, to right align it in four columns
pub open spec fn pad_text(n: nat) -> Seq<char>
    decreases 4 - n,
{
    if n >= 4 {
        Seq::empty()
    } else {
        seq![' '] + pad_text(n + 1)
    }
}

/// The start of a line of a token listing: the line number right aligned in
/// four columns and a space, or `   | ` when the line is that of the token
/// before
pub open spec fn listing_margin(line: int, last: int) -> Seq<char> {
    if line != last {
        let d = digits(line as nat, 10, false);
        pad_text(d.len()) + d + seq![' ']
    } else {
        seq![' ', ' ', ' ', '|', ' ']
    }
}

/// The listing of the tokens of `s` from position `pos` on line `line`,
/// when the token before was on line `last`: one line per token, up to and
/// including the end of the file, or the first error of the lexer.
pub open spec fn listing_text(s: Seq<char>, pos: int, line: int, last: int) -> Result<
    Seq<char>,
    LexError,
>
    decreases s.len() - pos,
{
    match lex_step(s, pos, line) {
        Err(e) => Err(e),
        Ok((k, b, e, l)) => {
            let head = listing_margin(l, last) + kind_name(k) + seq![' ', '\''] + s.subrange(b, e)
                + seq!['\'', '\n'];
            if k == TokenKind::Eof || !(pos < e <= s.len()) {
                Ok(head)
            } else {
                match listing_text(s, e, l, l) {
                    Ok(rest) => Ok(head + rest),
                    Err(err) => Err(err),
                }
            }
        },
    }
}

/// The line of the listing for a token, after a token on line `last`
fn listing_line(token: Token, last: usize) -> (res: Vec<char>)
    ensures
        res@ == listing_margin(token.line as int, last as int) + kind_name(token.kind) + seq![
            ' ',
            '\'',
        ] + token.value@ + seq!['\'', '\n'],
{
    let mut out: Vec<char> = Vec::new();
    if token.line != last {
        let mut digits: Vec<char> = Vec::new();
        crate::utils::push_digits(&mut digits, token.line as u64, 10, false);
        let mut pad = digits.len();
        assert(out@ + pad_text(pad as nat) =~= pad_text(digits@.len()));
        while pad < 4
            invariant
                out@ + pad_text(pad as nat) == pad_text(digits@.len()),
            decreases 4 - pad,
        {
            out.push(' ');
            pad = pad + 1;
            assert(out@ + pad_text(pad as nat) =~= pad_text(digits@.len()));
        }
        assert(out@ =~= pad_text(digits@.len()));
        crate::utils::push_chars(&mut out, digits.as_slice());
        out.push(' ');
    } else {
        out.push(' ');
        out.push(' ');
        out.push(' ');
        out.push('|');
        out.push(' ');
    }
    assert(out@ =~= listing_margin(token.line as int, last as int));
    crate::utils::push_str(&mut out, token.kind.name());
    out.push(' ');
    out.push('\'');
    crate::utils::push_chars(&mut out, token.value);
    out.push('\'');
    out.push('\n');
    assert(out@ =~= listing_margin(token.line as int, last as int) + kind_name(token.kind) + seq![
        ' ',
        '\'',
    ] + token.value@ + seq!['\'', '\n']);
    out
}

/// A listing after some text
pub open spec fn prepend(p: Seq<char>, r: Result<Seq<char>, LexError>) -> Result<
    Seq<char>,
    LexError,
> {
    match r {
        Ok(t) => Ok(p + t),
        Err(e) => Err(e),
    }
}

impl<'a> Lexer<'a> {
    /// A listing of all tokens from the current position to the end of the
    /// source: for each, the line number (right aligned in four columns, or
    /// `   |` when it is the line of the token before), its kind and its text
    /// in quotes, one token per line, ending with the end of file token.
    pub fn listing(&self) -> (res: Result<String, LexError>)
        requires
            self.wf(),
        ensures
            match listing_text(self.source(), self.position(), self.line(), usize::MAX as int) {
                Ok(t) => res matches Ok(s) && s@ == t,
                Err(e) => res == Err::<String, LexError>(e),
            },
    {
        let mut line = usize::MAX;
        let mut this = *self;
        let mut out: Vec<char> = Vec::new();
        assert(out@ + Seq::<char>::empty() =~= Seq::<char>::empty());
        loop
            invariant_except_break
                listing_text(self.source(), self.position(), self.line(), usize::MAX as int)
                    == prepend(
                    out@,
                    listing_text(this.source(), this.position(), this.line(), line as int),
                ),
            invariant
                this.wf(),
                this.source() == self.source(),
            ensures
                listing_text(self.source(), self.position(), self.line(), usize::MAX as int)
                    == Ok::<Seq<char>, LexError>(out@),
            decreases this.source().len() - this.position(),
        {
            let ghost old_this = this;
            let ghost old_out = out@;
            let ghost old_line = line;
            proof {
                this.lemma_position_bound();
            }
            let token = match this.next() {
                Ok(t) => t,
                Err(e) => {
                    return Err(e);
                },
            };
            proof {
                this.lemma_position_bound();
            }
            let head = listing_line(token, line);
            crate::utils::push_chars(&mut out, head.as_slice());
            line = token.line;
            if token.kind == TokenKind::Eof {
                proof {
                    assert(listing_text(old_this.source(), old_this.position(), old_this.line(), old_line as int)
                        == Ok::<Seq<char>, LexError>(head@));
                }
                break;
            }
            proof {
                let rest = listing_text(this.source(), this.position(), this.line(), line as int);
                assert(prepend(old_out, prepend(head@, rest)) == prepend(out@, rest)) by {
                    match rest {
                        Ok(t) => {
                            assert(old_out + (head@ + t) =~= out@ + t);
                        },
                        Err(_) => {},
                    }
                }
            }
        }
        Ok(crate::utils::chars_to_string(out.as_slice()))
    }
}

} // verus!
