use vastc::source::Source;
use vastc::parser::lexer::{
    Lexer, MSG_CLOSE_CHAR, MSG_ILLEGAL_CHARACTERS, MSG_ILLEGAL_ESCAPE_CHAR, MSG_ILLEGAL_ESCAPE_STRING,
    MSG_UNCLOSED_CHAR, MSG_UNTERMINATED_CHAR, MSG_UNTERMINATED_STRING,
};
use vastc::parser::token::{Errno, Token, TokenFlags, TokenType};

/// The tokens of `text`, without the end-of-file token that ends every
/// token list.
fn lex(text: &str) -> Vec<Token> {
    let source = Source::new("test.vs", text);
    let mut lexer = Lexer::new(&source);
    lexer.tokenize();
    assert_eq!(lexer.cursor().index(), source.len());
    let mut toks = lexer.take_tokens();
    assert_eq!(toks.pop(), Some(Token::eof()));
    toks
}

fn tk(ty: TokenType, start: u32, end: u32, flags: u32) -> Token {
    Token { ty, location: Some(start..end), flags }
}

#[test]
fn lexer_keyword_then_identifier() {
    let toks = lex("let x");
    assert_eq!(toks, vec![
        tk(TokenType::Let, 0, 3, TokenFlags::TAIL_SPACE),
        tk(TokenType::Identifier, 4, 5, 0),
    ]);
}

#[test]
fn lexer_all_keywords() {
    let toks = lex("fn public mut use self Self struct impl if else match dyn true false");
    let tys: Vec<TokenType> = toks.into_iter().map(|t| t.ty).collect();
    assert_eq!(tys, vec![
        TokenType::Fn,
        TokenType::Public,
        TokenType::Mut,
        TokenType::Use,
        TokenType::LSelf,
        TokenType::USelf,
        TokenType::Struct,
        TokenType::Impl,
        TokenType::If,
        TokenType::Else,
        TokenType::Match,
        TokenType::Dyn,
        TokenType::BoolLiteral(true),
        TokenType::BoolLiteral(false),
    ]);
}

#[test]
fn lexer_symbol_at_end_of_input() {
    assert_eq!(lex("("), vec![tk(TokenType::LParen, 0, 1, 0)]);
    assert_eq!(lex("::"), vec![tk(TokenType::DoubleColon, 0, 2, 0)]);
    assert_eq!(lex("<<="), vec![tk(TokenType::ShlBy, 0, 3, 0)]);
    // `<` and `>` are entered twice in the symbol table; the later entries win
    assert_eq!(lex("<"), vec![tk(TokenType::Lt, 0, 1, 0)]);
    assert_eq!(lex(">"), vec![tk(TokenType::Gt, 0, 1, 0)]);
}

#[test]
fn lexer_identifier_then_trailing_symbol() {
    assert_eq!(lex("a+"), vec![
        tk(TokenType::Identifier, 0, 1, 0),
        tk(TokenType::Plus, 1, 2, 0),
    ]);
}

#[test]
fn lexer_symbol_followed_by_more_text() {
    let toks = lex("+ a");
    assert_eq!(toks, vec![
        tk(TokenType::Plus, 0, 1, TokenFlags::TAIL_SPACE),
        tk(TokenType::Identifier, 2, 3, 0),
    ]);
}

#[test]
fn lexer_longest_symbol_wins() {
    let tys: Vec<TokenType> = lex("a<<=b<=c::d(e)").into_iter().map(|t| t.ty).collect();
    assert_eq!(tys, vec![
        TokenType::Identifier,
        TokenType::ShlBy,
        TokenType::Identifier,
        TokenType::LtOrEq,
        TokenType::Identifier,
        TokenType::DoubleColon,
        TokenType::Identifier,
        TokenType::LParen,
        TokenType::Identifier,
        TokenType::RParen,
    ]);
    assert_eq!(lex("x==y")[1], tk(TokenType::Eq, 1, 3, 0));
}

#[test]
fn lexer_run_of_illegal_characters_is_one_error() {
    let source = Source::new("t", "$$$ x");
    let mut lexer = Lexer::new(&source);
    lexer.tokenize();
    assert_eq!(lexer.error_count(), 1);
    let errs = lexer.errors();
    assert_eq!(errs.len(), 1);
    assert_eq!(errs[0].location, Some(0..3));
    assert!(errs[0].is_error());
    assert_eq!(lexer.tokens().len(), 3);
}

#[test]
fn lexer_next_token_reports_new_error_index() {
    let source = Source::new("t", "a $");
    let mut lexer = Lexer::new(&source);
    assert_eq!(lexer.next_token(), Ok(()));
    assert_eq!(lexer.next_token(), Err(1));
    assert!(lexer.tokens()[1].is_error());
    assert_eq!(lexer.cursor().index(), 3);
    assert_eq!(lexer.tokens()[0].flags, TokenFlags::TAIL_SPACE);
}

#[test]
fn lexer_whitespace_flags_on_last_token() {
    let toks = lex("a \n b");
    assert_eq!(toks[0].flags, TokenFlags::TAIL_SPACE | TokenFlags::TAIL_NEWLINE);
    assert_eq!(toks[1].flags, 0);
    // a line feed alone is no space
    assert_eq!(lex("a\nb")[0].flags, TokenFlags::TAIL_NEWLINE);
    assert_eq!(lex("a\tb")[0].flags, TokenFlags::TAIL_SPACE);
}

#[test]
fn lexer_has_flags_tests_the_complement() {
    // `has_flags` is true exactly when the complement of `flags & mask` is zero
    let t = Token { ty: TokenType::Identifier, location: None, flags: u32::MAX };
    assert!(t.has_flags(u32::MAX));
    assert!(!t.has_flags(TokenFlags::TAIL_SPACE));
}

#[test]
fn lexer_comments_make_no_tokens() {
    assert_eq!(lex("// note\nx"), vec![tk(TokenType::Identifier, 8, 9, 0)]);
    assert_eq!(lex("/* a */ y"), vec![tk(TokenType::Identifier, 8, 9, 0)]);
    // an unclosed block comment runs to the end, where an illegal
    // character is reported
    assert_eq!(lex("/* open"), vec![
        tk(TokenType::Error(Errno::IllegalCharacter, MSG_ILLEGAL_CHARACTERS), 7, 8, 0),
    ]);
}

#[test]
fn lexer_string_literal() {
    assert_eq!(lex("\"hi\""), vec![tk(TokenType::StringLiteral("hi".to_string()), 0, 4, 0)]);
}

#[test]
fn lexer_string_literal_escapes() {
    assert_eq!(lex("\"a\\n\\t\\\\\""), vec![
        tk(TokenType::StringLiteral("a\n\t\\".to_string()), 0, 9, 0),
    ]);
}

#[test]
fn lexer_string_literal_illegal_escape() {
    let toks = lex("\"a\\qb\"");
    assert_eq!(toks, vec![
        tk(TokenType::Error(Errno::IllegalEscapedChar, MSG_ILLEGAL_ESCAPE_STRING), 2, 4, 0),
        tk(TokenType::StringLiteral("ab".to_string()), 0, 6, 0),
    ]);
}

#[test]
fn lexer_unterminated_string() {
    let toks = lex("\"ab");
    assert_eq!(toks, vec![
        tk(TokenType::Error(Errno::UnterminatedLiteral, MSG_UNTERMINATED_STRING), 0, 3, 0),
    ]);
}

#[test]
fn lexer_char_literal() {
    assert_eq!(lex("'a'"), vec![tk(TokenType::CharLiteral('a'), 0, 3, 0)]);
    assert_eq!(lex("'é' x"), vec![
        tk(TokenType::CharLiteral('é'), 0, 3, TokenFlags::TAIL_SPACE),
        tk(TokenType::Identifier, 4, 5, 0),
    ]);
}

#[test]
fn lexer_char_literal_escape() {
    assert_eq!(lex("'\\n'"), vec![tk(TokenType::CharLiteral('\n'), 0, 4, 0)]);
    assert_eq!(lex("'\\\\'"), vec![tk(TokenType::CharLiteral('\\'), 0, 4, 0)]);
}

#[test]
fn lexer_char_literal_illegal_escape() {
    assert_eq!(lex("'\\q'"), vec![
        tk(TokenType::Error(Errno::IllegalEscapedChar, MSG_ILLEGAL_ESCAPE_CHAR), 1, 3, 0),
    ]);
}

#[test]
fn lexer_char_literal_errors() {
    // no closing quote after the character
    assert_eq!(lex("'ab'"), vec![
        tk(TokenType::Error(Errno::IllegalCharacter, MSG_UNCLOSED_CHAR), 2, 3, 0),
        tk(TokenType::Error(Errno::UnterminatedLiteral, MSG_UNTERMINATED_CHAR), 3, 4, 0),
    ]);
    // nothing after the opening quote
    assert_eq!(lex("'"), vec![
        tk(TokenType::Error(Errno::UnterminatedLiteral, MSG_UNTERMINATED_CHAR), 0, 1, 0),
    ]);
    // an escape without its closing quote
    assert_eq!(lex("'\\nx"), vec![
        tk(TokenType::CharLiteral('\n'), 0, 4, 0),
        tk(TokenType::Error(Errno::IllegalCharacter, MSG_CLOSE_CHAR), 3, 4, 0),
    ]);
}

#[test]
fn lexer_empty_source() {
    assert_eq!(lex(""), vec![]);
    assert_eq!(lex("   \n"), vec![]);
}

#[test]
fn lexer_error_list_indexes_error_tokens() {
    let source = Source::new("t", "x $ \"a\\qb\" $");
    let mut lexer = Lexer::new(&source);
    lexer.tokenize();
    let toks = lexer.tokens().clone();
    let errs = lexer.errors();
    let expected: Vec<&Token> = toks.iter().filter(|t| t.is_error()).collect();
    assert_eq!(errs.len(), expected.len());
    for (a, b) in errs.iter().zip(expected.iter()) {
        assert_eq!(*a, *b);
    }
    assert_eq!(lexer.error_count(), 3);
}

#[test]
fn lexer_token_list_ends_with_eof() {
    let source = Source::new("t", "fn");
    let mut lexer = Lexer::new(&source);
    lexer.tokenize();
    assert_eq!(lexer.tokens().len(), 2);
    assert_eq!(lexer.tokens()[1], Token::eof());
    let empty = Source::new("t", "");
    let mut lexer2 = Lexer::new(&empty);
    lexer2.tokenize();
    assert_eq!(lexer2.take_tokens(), vec![Token::eof()]);
}
