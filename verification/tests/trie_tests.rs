use vastc::parse::CharTree;
use vastc::source::Source;
use vastc::spec::resolve_escaped_char;
use vastc::parser::token::{keyword, str_eq, tree_all_symbols, Errno, Token, TokenStream, TokenType};
use vastc::parser::parser::{Parser, TokenCursor};

#[test]
fn trie_reads_whole_rest_as_inserted_string() {
    let mut tree: CharTree<u32> = CharTree::new();
    tree.insert_str("ab", 1).insert_str("abc", 2);
    let source = Source::new("t", "xabc");
    let mut c = source.cursor_at(1);
    assert_eq!(tree.read_or_restore(&mut c), Some((2, 1..4)));
    assert_eq!(c.index(), 4);
}

#[test]
fn trie_reads_longest_stored_prefix() {
    let mut tree: CharTree<u32> = CharTree::new();
    tree.insert_str("(", 1);
    let source = Source::new("t", "(x");
    let mut c = source.cursor();
    assert_eq!(tree.read_or_restore(&mut c), Some((1, 0..1)));
    assert_eq!(c.index(), 1);
    let mut tree2: CharTree<u32> = CharTree::new();
    tree2.insert_str("a", 1).insert_str("abc", 3);
    let s2 = Source::new("t", "abd");
    let mut c2 = s2.cursor();
    assert_eq!(tree2.read_or_restore(&mut c2), Some((1, 0..1)));
    assert_eq!(c2.index(), 1);
}

#[test]
fn trie_restores_when_no_prefix_is_stored() {
    let mut tree: CharTree<u32> = CharTree::new();
    tree.insert_str("ab", 1);
    let source = Source::new("t", "axb");
    let mut c = source.cursor();
    assert_eq!(tree.read_or_restore(&mut c), None);
    assert_eq!(c.index(), 0);
    // the path to a stored string is not itself stored
    let source2 = Source::new("t", "a");
    let mut c2 = source2.cursor();
    assert_eq!(tree.read_or_restore(&mut c2), None);
    assert_eq!(c2.index(), 0);
}

#[test]
fn trie_insert_overwrites_value() {
    let mut tree: CharTree<u32> = CharTree::new();
    tree.insert(b"=", 1);
    tree.insert(b"=", 5);
    let source = Source::new("t", "=");
    let mut c = source.cursor();
    assert_eq!(tree.read_or_restore(&mut c), Some((5, 0..1)));
}

#[test]
fn trie_lookup_after_insert_keeps_other_strings() {
    let mut tree: CharTree<u32> = CharTree::new();
    tree.insert_str("<", 1);
    tree.insert_str("<=", 2);
    let s1 = Source::new("t", "<");
    let mut c1 = s1.cursor();
    assert_eq!(tree.read_or_restore(&mut c1), Some((1, 0..1)));
    let s2 = Source::new("t", "<=");
    let mut c2 = s2.cursor();
    assert_eq!(tree.read_or_restore(&mut c2), Some((2, 0..2)));
    let s3 = Source::new("t", "<x");
    let mut c3 = s3.cursor();
    assert_eq!(tree.read_or_restore(&mut c3), Some((1, 0..1)));
}

#[test]
fn trie_empty_rest_is_not_found() {
    let mut tree: CharTree<u32> = CharTree::new();
    tree.insert_str("a", 1);
    let source = Source::new("t", "a");
    let mut c = source.cursor_at(1);
    assert_eq!(tree.read_or_restore(&mut c), None);
    assert_eq!(c.index(), 1);
}

#[test]
fn symbol_tree_holds_the_symbol_table() {
    let tree = tree_all_symbols();
    let cases: Vec<(&str, TokenType)> = vec![
        ("(", TokenType::LParen),
        ("}", TokenType::RBrace),
        ("::", TokenType::DoubleColon),
        ("@", TokenType::At),
        (">>=", TokenType::ShrBy),
        ("&&", TokenType::And2),
        ("||", TokenType::Or2),
        ("~", TokenType::Invert),
        ("!=", TokenType::Neq),
        ("<", TokenType::Lt),
        (">", TokenType::Gt),
        ("<=", TokenType::LtOrEq),
    ];
    for (text, ty) in cases {
        let source = Source::new("t", text);
        let mut c = source.cursor();
        let n = source.len();
        assert_eq!(tree.read_or_restore(&mut c), Some((ty, 0..n)));
    }
}

#[test]
fn resolve_escaped_char_table() {
    let cases: Vec<(&str, Option<char>)> = vec![
        ("n", Some('\n')),
        ("r", Some('\r')),
        ("t", Some('\t')),
        ("\\", Some('\\')),
        ("x", None),
        ("0", None),
    ];
    for (text, expected) in cases {
        let source = Source::new("t", text);
        let mut c = source.cursor();
        assert_eq!(resolve_escaped_char(&mut c), expected);
        assert_eq!(c.index(), 1);
    }
    let empty = Source::new("t", "");
    let mut c = empty.cursor();
    assert_eq!(resolve_escaped_char(&mut c), None);
    assert_eq!(c.index(), 0);
}

#[test]
fn keyword_lookup() {
    assert_eq!(keyword("let"), Some(TokenType::Let));
    assert_eq!(keyword("public"), Some(TokenType::Public));
    assert_eq!(keyword("Self"), Some(TokenType::USelf));
    assert_eq!(keyword("true"), Some(TokenType::BoolLiteral(true)));
    assert_eq!(keyword("pub"), None);
    assert_eq!(keyword("Let"), None);
    assert_eq!(keyword(""), None);
    assert!(str_eq("abc", "abc"));
    assert!(!str_eq("abc", "abd"));
    assert!(!str_eq("ab", "abc"));
}

#[test]
fn token_type_classification() {
    assert!(TokenType::Let.is_keyword());
    assert!(TokenType::Public.is_keyword());
    assert!(TokenType::USelf.is_keyword());
    assert!(!TokenType::If.is_keyword());
    assert!(!TokenType::Identifier.is_keyword());
    assert!(TokenType::Error(Errno::IllegalCharacter, "x").is_error());
    assert!(!TokenType::EOF.is_error());
    assert_eq!(TokenType::StringLiteral("a".to_string()).clone(), TokenType::StringLiteral("a".to_string()));
}

#[test]
fn errno_codes() {
    assert_eq!(Errno::IllegalCharacter.code(), 1);
    assert_eq!(Errno::UnterminatedLiteral.code(), 2);
    assert_eq!(Errno::IllegalEscapedChar.code(), 3);
    assert_eq!(Errno::IllegalRadixChar.code(), 4);
    assert_eq!(Errno::IllegalDecimalRadix.code(), 5);
    assert_eq!(Errno::InvalidTypeQualifier.code(), 6);
}

#[test]
fn token_accessors() {
    let t = Token { ty: TokenType::Comma, location: Some(3..4), flags: 0 };
    assert_eq!(*t.ty(), TokenType::Comma);
    assert_eq!(*t.location(), Some(3..4));
    assert!(!t.is_error());
    let eof = Token::eof();
    assert_eq!(eof.ty, TokenType::EOF);
    assert_eq!(eof.location, None);
    assert_eq!(eof.flags, 0);
}

#[test]
fn token_stream_out_of_bounds_is_eof() {
    let tokens = vec![
        Token { ty: TokenType::Fn, location: Some(0..2), flags: 1 },
        Token { ty: TokenType::Identifier, location: Some(3..4), flags: 0 },
    ];
    let mut s = TokenStream::new(&tokens);
    assert_eq!(s.peek().ty, TokenType::Fn);
    assert_eq!(s.at(1).ty, TokenType::Identifier);
    assert_eq!(*s.at(2), Token::eof());
    assert_eq!(*s.at(usize::MAX), Token::eof());
    assert_eq!(s.advance().ty, TokenType::Identifier);
    assert_eq!(*s.advance(), Token::eof());
    assert_eq!(*s.peek(), Token::eof());
}

#[test]
fn token_cursor_out_of_bounds_is_eof() {
    let mut tokens = vec![Token { ty: TokenType::Semicolon, location: Some(0..1), flags: 0 }];
    let mut c = TokenCursor::new(&mut tokens);
    assert_eq!(c.peek().ty, TokenType::Semicolon);
    assert_eq!(*c.at(1), Token::eof());
    assert_eq!(*c.advance(), Token::eof());
    let p = Parser::new(c);
    assert_eq!(p.diagnostics().len(), 0);
}
