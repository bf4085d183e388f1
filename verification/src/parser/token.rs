use vstd::prelude::*;
use std::ops::Range;
use vstd::utf8::{encode_utf8, is_ascii_chars, is_ascii_chars_encode_utf8};
use crate::parse::{byte_key, CharTree};
use crate::source::{chars_of, SourceSpan};

verus! {

/// Represents a source token with a type, optionally a value, and an attached
/// position.
#[derive(Debug, Clone, PartialEq)]
pub struct Token {
    /// The variant of this token
    pub ty: TokenType,
    /// The location in the source code
    pub location: Option<SourceSpan>,
    /// Additional flags
    pub flags: u32,
}

/// Flags that a token may carry.
pub struct TokenFlags;

impl TokenFlags {
    /// Denotes this token was followed directly by a space or a tab (any
    /// whitespace other than a line feed)
    pub const TAIL_SPACE: u32 = 0b1;

    /// Denotes this token was followed directly by a newline
    pub const TAIL_NEWLINE: u32 = 0b10;
}

impl Token {
    /// The token which marks the end of the file.
    pub open spec fn spec_eof() -> Token {
        Token { location: None, ty: TokenType::EOF, flags: 0 }
    }

    /// The token which marks the end of the file.
    pub fn eof() -> (t: Token)
        ensures
            t == Token::spec_eof(),
    {
        Token { location: None, ty: TokenType::EOF, flags: 0 }
    }

    pub fn ty(&self) -> (r: &TokenType)
        ensures
            *r == self.ty,
    {
        &self.ty
    }

    pub fn location(&self) -> (r: &Option<SourceSpan>)
        ensures
            *r == self.location,
    {
        &self.location
    }

    pub fn is_error(&self) -> (r: bool)
        ensures
            r == self.ty is Error,
    {
        self.ty.is_error()
    }

    /// True when every bit of `flags & mask` is set, that is, when the
    /// bitwise complement of `flags & mask` is zero.
    pub fn has_flags(&self, mask: u32) -> (r: bool)
        ensures
            r == (!(self.flags & mask) == 0u32),
    {
        !(self.flags & mask) == 0
    }
}

/// Cursor-like iteration utility over an in-memory list of tokens.
pub struct TokenStream<'a> {
    tokens: &'a Vec<Token>,
    index: usize,
    eof: Token,
}

impl<'a> TokenStream<'a> {
    pub closed spec fn spec_tokens(&self) -> Seq<Token> {
        self.tokens@
    }

    pub closed spec fn spec_index(&self) -> usize {
        self.index
    }

    pub closed spec fn wf(&self) -> bool {
        self.eof == Token::spec_eof()
    }

    /// The token at `idx`, or the end-of-file token out of bounds.
    pub open spec fn token_at(&self, idx: int) -> Token {
        if 0 <= idx < self.spec_tokens().len() {
            self.spec_tokens()[idx]
        } else {
            Token::spec_eof()
        }
    }

    pub fn new(tokens: &'a Vec<Token>) -> (s: Self)
        ensures
            s.wf(),
            s.spec_tokens() == tokens@,
            s.spec_index() == 0,
    {
        TokenStream { tokens, index: 0, eof: Token::eof() }
    }

    /// The token at `idx`; the end-of-file token is returned for
    /// out-of-bounds indices.
    pub fn at(&self, idx: usize) -> (t: &Token)
        requires
            self.wf(),
        ensures
            *t == self.token_at(idx as int),
    {
        if idx < self.tokens.len() {
            &self.tokens[idx]
        } else {
            &self.eof
        }
    }

    pub fn advance(&mut self) -> (t: &Token)
        requires
            old(self).wf(),
            old(self).spec_index() < usize::MAX,
        ensures
            final(self).wf(),
            final(self).spec_tokens() == old(self).spec_tokens(),
            final(self).spec_index() == old(self).spec_index() + 1,
            *t == final(self).token_at(final(self).spec_index() as int),
    {
        self.index += 1;
        self.at(self.index)
    }

    pub fn peek(&self) -> (t: &Token)
        requires
            self.wf(),
        ensures
            *t == self.token_at(self.spec_index() as int),
    {
        self.at(self.index)
    }
}

/// The premier token type and associated value if applicable as a
/// tagged union/enum.
#[derive(Debug, PartialEq)]
pub enum TokenType {
    /*
       Internal
   */
    /// Marks an error in tokenization.
    Error(Errno, &'static str),
    /// The token which marks the end of the file. This is always the last token in the list.
    /// Also returned for out-of-bounds peek operations.
    EOF,
    /*
       Literals
   */
    BoolLiteral(bool),
    StringLiteral(/* must own, may be escaped */ String),
    CharLiteral(char),
    /// Parsed from the source span later in parsing/type resolution.
    NumericLiteral(SourceSpan, NumericLiteralMetadata),
    /// Parsed from the source span.
    Identifier,
    /*
       Keywords
   */
    Use,
    Fn,
    Let,
    Mut,
    If,
    Else,
    Match,
    Struct,
    Trait,
    Dyn,
    Impl,
    Public,
    LSelf,  // Lower Self -- "self"
    USelf,  // Upper Self -- "Self"
    /*
       Symbols
   */
    LParen,  // (
    RParen,  // )
    LBrace,  // {
    RBrace,  // }
    LBracket,  // [
    RBracket,  // ]
    LAngle,  // <
    RAngle,  // >
    Colon,  // :
    Semicolon,  // ;
    DoubleColon,  // ::
    Dot,  // .
    Comma,  // ,
    At,  // @
    /*
      Assignment
   */
    Assign,  // =
    IncrBy,
    DecrBy,
    MulBy,
    DivBy,
    ModBy,
    AndBy,
    OrBy,
    ShlBy,
    ShrBy,
    XorBy,
    /*
      Operators
   */
    /* Arithmetic */
    Plus,  // +
    Minus,  // -
    Times,  // *
    Divide,  // /
    Modulo,  // %
    /* Logic/Binary */
    And,  // &
    Or,  // |
    Invert,  // ~
    Not,  // !
    And2,  // &&
    Or2,  // ||
    Shl,  // <<
    Shr,  // >>
    Xor,  // ^
    /* Comparison */
    Eq,  // ==
    Neq,  // !=
    Gt,  // >
    GtOrEq,  // >=
    Lt,  // <
    LtOrEq,  // <=
}

impl Clone for TokenType {
    fn clone(&self) -> (r: Self)
        ensures
            r == *self,
    {
        match self {
            TokenType::Error(e, m) => TokenType::Error(*e, *m),
            TokenType::EOF => TokenType::EOF,
            TokenType::BoolLiteral(b) => TokenType::BoolLiteral(*b),
            TokenType::StringLiteral(s) => TokenType::StringLiteral(s.clone()),
            TokenType::CharLiteral(c) => TokenType::CharLiteral(*c),
            TokenType::NumericLiteral(span, meta) => TokenType::NumericLiteral(
                Range { start: span.start, end: span.end },
                *meta,
            ),
            TokenType::Identifier => TokenType::Identifier,
            TokenType::Use => TokenType::Use,
            TokenType::Fn => TokenType::Fn,
            TokenType::Let => TokenType::Let,
            TokenType::Mut => TokenType::Mut,
            TokenType::If => TokenType::If,
            TokenType::Else => TokenType::Else,
            TokenType::Match => TokenType::Match,
            TokenType::Struct => TokenType::Struct,
            TokenType::Trait => TokenType::Trait,
            TokenType::Dyn => TokenType::Dyn,
            TokenType::Impl => TokenType::Impl,
            TokenType::Public => TokenType::Public,
            TokenType::LSelf => TokenType::LSelf,
            TokenType::USelf => TokenType::USelf,
            TokenType::LParen => TokenType::LParen,
            TokenType::RParen => TokenType::RParen,
            TokenType::LBrace => TokenType::LBrace,
            TokenType::RBrace => TokenType::RBrace,
            TokenType::LBracket => TokenType::LBracket,
            TokenType::RBracket => TokenType::RBracket,
            TokenType::LAngle => TokenType::LAngle,
            TokenType::RAngle => TokenType::RAngle,
            TokenType::Colon => TokenType::Colon,
            TokenType::Semicolon => TokenType::Semicolon,
            TokenType::DoubleColon => TokenType::DoubleColon,
            TokenType::Dot => TokenType::Dot,
            TokenType::Comma => TokenType::Comma,
            TokenType::At => TokenType::At,
            TokenType::Assign => TokenType::Assign,
            TokenType::IncrBy => TokenType::IncrBy,
            TokenType::DecrBy => TokenType::DecrBy,
            TokenType::MulBy => TokenType::MulBy,
            TokenType::DivBy => TokenType::DivBy,
            TokenType::ModBy => TokenType::ModBy,
            TokenType::AndBy => TokenType::AndBy,
            TokenType::OrBy => TokenType::OrBy,
            TokenType::ShlBy => TokenType::ShlBy,
            TokenType::ShrBy => TokenType::ShrBy,
            TokenType::XorBy => TokenType::XorBy,
            TokenType::Plus => TokenType::Plus,
            TokenType::Minus => TokenType::Minus,
            TokenType::Times => TokenType::Times,
            TokenType::Divide => TokenType::Divide,
            TokenType::Modulo => TokenType::Modulo,
            TokenType::And => TokenType::And,
            TokenType::Or => TokenType::Or,
            TokenType::Invert => TokenType::Invert,
            TokenType::Not => TokenType::Not,
            TokenType::And2 => TokenType::And2,
            TokenType::Or2 => TokenType::Or2,
            TokenType::Shl => TokenType::Shl,
            TokenType::Shr => TokenType::Shr,
            TokenType::Xor => TokenType::Xor,
            TokenType::Eq => TokenType::Eq,
            TokenType::Neq => TokenType::Neq,
            TokenType::Gt => TokenType::Gt,
            TokenType::GtOrEq => TokenType::GtOrEq,
            TokenType::Lt => TokenType::Lt,
            TokenType::LtOrEq => TokenType::LtOrEq,
        }
    }
}

/// Error numbers of tokenization.
#[derive(Copy, Clone, Debug, PartialEq, Eq, Structural)]
pub enum Errno {
    IllegalCharacter,
    UnterminatedLiteral,
    IllegalEscapedChar,
    IllegalRadixChar,
    IllegalDecimalRadix,
    InvalidTypeQualifier,
}

impl Errno {
    /// The error numeral, counting from 1.
    pub open spec fn spec_code(&self) -> u32 {
        match self {
            Errno::IllegalCharacter => 1,
            Errno::UnterminatedLiteral => 2,
            Errno::IllegalEscapedChar => 3,
            Errno::IllegalRadixChar => 4,
            Errno::IllegalDecimalRadix => 5,
            Errno::InvalidTypeQualifier => 6,
        }
    }

    /// The error numeral, counting from 1.
    /// The error numbers run from 1 to 6 in the order of the variants:
    /// illegal character, unterminated literal, illegal escaped character,
    /// illegal radix character, illegal decimal radix, invalid type qualifier.
    pub proof fn law_error_numbers()
        ensures
            Errno::IllegalCharacter.spec_code() == 1,
            Errno::UnterminatedLiteral.spec_code() == 2,
            Errno::IllegalEscapedChar.spec_code() == 3,
            Errno::IllegalRadixChar.spec_code() == 4,
            Errno::IllegalDecimalRadix.spec_code() == 5,
            Errno::InvalidTypeQualifier.spec_code() == 6,
    {
    }

    pub fn code(&self) -> (r: u32)
        ensures
            r == self.spec_code(),
    {
        match self {
            Errno::IllegalCharacter => 1,
            Errno::UnterminatedLiteral => 2,
            Errno::IllegalEscapedChar => 3,
            Errno::IllegalRadixChar => 4,
            Errno::IllegalDecimalRadix => 5,
            Errno::InvalidTypeQualifier => 6,
        }
    }
}

impl TokenType {
    pub fn is_error(&self) -> (r: bool)
        ensures
            r == self is Error,
    {
        match self {
            TokenType::Error(_, _) => true,
            _ => false,
        }
    }

    pub open spec fn spec_is_keyword(&self) -> bool {
        ||| self is Use
        ||| self is Let
        ||| self is Fn
        ||| self is USelf
        ||| self is LSelf
        ||| self is Public
        ||| self is Mut
    }

    /// The keyword tokens are exactly `use`, `let`, `fn`, `Self`, `self`,
    /// `public` and `mut`.
    pub proof fn law_keyword_tokens(ty: TokenType)
        ensures
            ty.spec_is_keyword() <==> (ty is Use || ty is Let || ty is Fn || ty is USelf || ty is LSelf
                || ty is Public || ty is Mut),
    {
    }

    pub fn is_keyword(&self) -> (r: bool)
        ensures
            r == self.spec_is_keyword(),
    {
        match self {
            TokenType::Use | TokenType::Let | TokenType::Fn | TokenType::USelf | TokenType::LSelf
            | TokenType::Public | TokenType::Mut => true,
            _ => false,
        }
    }
}

#[derive(Clone, Copy, Debug, PartialEq)]
pub enum NumericTypeQualifier {
    Infer,
    Float(/* width */ u32),
    Int(/* width */ u32),
    Unsigned(/* width */ u32),
}

#[derive(Clone, Copy, Debug, PartialEq)]
pub struct NumericLiteralMetadata {
    pub is_float: bool,  // whether this literal should be interpreted as a decimal (`.` or F/D suffix)
    pub radix: u16,  // used later to reparse actual number literal content
    pub type_qual: NumericTypeQualifier,  // type qualifier if explicitly specified, otherwise infer
}


/// The key under which a symbol is stored in the symbol tree: one character
/// per byte of its UTF-8 encoding.
pub open spec fn symbol_key(s: &str) -> Seq<char> {
    byte_key(encode_utf8(s@))
}

/// The symbol tokens, by the text they are written with. Later entries
/// replace earlier ones with the same text (`<` and `>` read as `Lt` and `Gt`).
#[verifier::opaque]
pub open spec fn symbol_table() -> Map<Seq<char>, TokenType> {
    Map::empty()
        .insert(symbol_key("("), TokenType::LParen)
        .insert(symbol_key(")"), TokenType::RParen)
        .insert(symbol_key("{"), TokenType::LBrace)
        .insert(symbol_key("}"), TokenType::RBrace)
        .insert(symbol_key("["), TokenType::LBracket)
        .insert(symbol_key("]"), TokenType::RBracket)
        .insert(symbol_key("<"), TokenType::LAngle)
        .insert(symbol_key(">"), TokenType::RAngle)
        .insert(symbol_key(":"), TokenType::Colon)
        .insert(symbol_key(";"), TokenType::Semicolon)
        .insert(symbol_key("."), TokenType::Dot)
        .insert(symbol_key(","), TokenType::Comma)
        .insert(symbol_key("@"), TokenType::At)
        .insert(symbol_key("::"), TokenType::DoubleColon)
        .insert(symbol_key("="), TokenType::Assign)
        .insert(symbol_key("+="), TokenType::IncrBy)
        .insert(symbol_key("-="), TokenType::DecrBy)
        .insert(symbol_key("*="), TokenType::MulBy)
        .insert(symbol_key("/="), TokenType::DivBy)
        .insert(symbol_key("%="), TokenType::ModBy)
        .insert(symbol_key("&="), TokenType::AndBy)
        .insert(symbol_key("|="), TokenType::OrBy)
        .insert(symbol_key("<<="), TokenType::ShlBy)
        .insert(symbol_key(">>="), TokenType::ShrBy)
        .insert(symbol_key("^="), TokenType::XorBy)
        .insert(symbol_key("+"), TokenType::Plus)
        .insert(symbol_key("-"), TokenType::Minus)
        .insert(symbol_key("*"), TokenType::Times)
        .insert(symbol_key("/"), TokenType::Divide)
        .insert(symbol_key("%"), TokenType::Modulo)
        .insert(symbol_key("&"), TokenType::And)
        .insert(symbol_key("&&"), TokenType::And2)
        .insert(symbol_key("|"), TokenType::Or)
        .insert(symbol_key("||"), TokenType::Or2)
        .insert(symbol_key("!"), TokenType::Not)
        .insert(symbol_key("~"), TokenType::Invert)
        .insert(symbol_key(">>"), TokenType::Shr)
        .insert(symbol_key("<<"), TokenType::Shl)
        .insert(symbol_key("^"), TokenType::Xor)
        .insert(symbol_key("=="), TokenType::Eq)
        .insert(symbol_key("!="), TokenType::Neq)
        .insert(symbol_key(">"), TokenType::Gt)
        .insert(symbol_key(">="), TokenType::GtOrEq)
        .insert(symbol_key("<"), TokenType::Lt)
        .insert(symbol_key("<="), TokenType::LtOrEq)
}

/// Parsing character tree for all symbol tokens, evaluated before identifier names.
/// This includes special characters, indexing, operators, etc.
/// A symbol written only with ASCII characters is stored under its own characters.
proof fn lemma_symbol_key_ascii(s: &str)
    requires
        is_ascii_chars(s@),
    ensures
        symbol_key(s) == s@,
{
    is_ascii_chars_encode_utf8(s@);
    assert forall|i: int| 0 <= i < s@.len() implies #[trigger] symbol_key(s)[i] == s@[i] by {
        let c = s@[i];
        assert('\0' <= c <= '\u{7f}');
        assert((c as u8) as char == c);
    }
    assert(symbol_key(s) =~= s@);
}

/// The symbol table with each spelling written as its characters.
#[verifier::opaque]
spec fn spelled_symbol_table() -> Map<Seq<char>, TokenType> {
    Map::empty()
        .insert(seq!['('], TokenType::LParen)
        .insert(seq![')'], TokenType::RParen)
        .insert(seq!['{'], TokenType::LBrace)
        .insert(seq!['}'], TokenType::RBrace)
        .insert(seq!['['], TokenType::LBracket)
        .insert(seq![']'], TokenType::RBracket)
        .insert(seq!['<'], TokenType::LAngle)
        .insert(seq!['>'], TokenType::RAngle)
        .insert(seq![':'], TokenType::Colon)
        .insert(seq![';'], TokenType::Semicolon)
        .insert(seq!['.'], TokenType::Dot)
        .insert(seq![','], TokenType::Comma)
        .insert(seq!['@'], TokenType::At)
        .insert(seq![':', ':'], TokenType::DoubleColon)
        .insert(seq!['='], TokenType::Assign)
        .insert(seq!['+', '='], TokenType::IncrBy)
        .insert(seq!['-', '='], TokenType::DecrBy)
        .insert(seq!['*', '='], TokenType::MulBy)
        .insert(seq!['/', '='], TokenType::DivBy)
        .insert(seq!['%', '='], TokenType::ModBy)
        .insert(seq!['&', '='], TokenType::AndBy)
        .insert(seq!['|', '='], TokenType::OrBy)
        .insert(seq!['<', '<', '='], TokenType::ShlBy)
        .insert(seq!['>', '>', '='], TokenType::ShrBy)
        .insert(seq!['^', '='], TokenType::XorBy)
        .insert(seq!['+'], TokenType::Plus)
        .insert(seq!['-'], TokenType::Minus)
        .insert(seq!['*'], TokenType::Times)
        .insert(seq!['/'], TokenType::Divide)
        .insert(seq!['%'], TokenType::Modulo)
        .insert(seq!['&'], TokenType::And)
        .insert(seq!['&', '&'], TokenType::And2)
        .insert(seq!['|'], TokenType::Or)
        .insert(seq!['|', '|'], TokenType::Or2)
        .insert(seq!['!'], TokenType::Not)
        .insert(seq!['~'], TokenType::Invert)
        .insert(seq!['>', '>'], TokenType::Shr)
        .insert(seq!['<', '<'], TokenType::Shl)
        .insert(seq!['^'], TokenType::Xor)
        .insert(seq!['=', '='], TokenType::Eq)
        .insert(seq!['!', '='], TokenType::Neq)
        .insert(seq!['>'], TokenType::Gt)
        .insert(seq!['>', '='], TokenType::GtOrEq)
        .insert(seq!['<'], TokenType::Lt)
        .insert(seq!['<', '='], TokenType::LtOrEq)
}

proof fn lemma_spelled_symbol_table()
    ensures
        symbol_table() == spelled_symbol_table(),
{
    reveal(symbol_table);
    reveal(spelled_symbol_table);
    reveal_strlit("!");
    lemma_symbol_key_ascii("!");
    assert("!"@ =~= seq!['!']);
    reveal_strlit("!=");
    lemma_symbol_key_ascii("!=");
    assert("!="@ =~= seq!['!', '=']);
    reveal_strlit("%");
    lemma_symbol_key_ascii("%");
    assert("%"@ =~= seq!['%']);
    reveal_strlit("%=");
    lemma_symbol_key_ascii("%=");
    assert("%="@ =~= seq!['%', '=']);
    reveal_strlit("&");
    lemma_symbol_key_ascii("&");
    assert("&"@ =~= seq!['&']);
    reveal_strlit("&&");
    lemma_symbol_key_ascii("&&");
    assert("&&"@ =~= seq!['&', '&']);
    reveal_strlit("&=");
    lemma_symbol_key_ascii("&=");
    assert("&="@ =~= seq!['&', '=']);
    reveal_strlit("(");
    lemma_symbol_key_ascii("(");
    assert("("@ =~= seq!['(']);
    reveal_strlit(")");
    lemma_symbol_key_ascii(")");
    assert(")"@ =~= seq![')']);
    reveal_strlit("*");
    lemma_symbol_key_ascii("*");
    assert("*"@ =~= seq!['*']);
    reveal_strlit("*=");
    lemma_symbol_key_ascii("*=");
    assert("*="@ =~= seq!['*', '=']);
    reveal_strlit("+");
    lemma_symbol_key_ascii("+");
    assert("+"@ =~= seq!['+']);
    reveal_strlit("+=");
    lemma_symbol_key_ascii("+=");
    assert("+="@ =~= seq!['+', '=']);
    reveal_strlit(",");
    lemma_symbol_key_ascii(",");
    assert(","@ =~= seq![',']);
    reveal_strlit("-");
    lemma_symbol_key_ascii("-");
    assert("-"@ =~= seq!['-']);
    reveal_strlit("-=");
    lemma_symbol_key_ascii("-=");
    assert("-="@ =~= seq!['-', '=']);
    reveal_strlit(".");
    lemma_symbol_key_ascii(".");
    assert("."@ =~= seq!['.']);
    reveal_strlit("/");
    lemma_symbol_key_ascii("/");
    assert("/"@ =~= seq!['/']);
    reveal_strlit("/=");
    lemma_symbol_key_ascii("/=");
    assert("/="@ =~= seq!['/', '=']);
    reveal_strlit(":");
    lemma_symbol_key_ascii(":");
    assert(":"@ =~= seq![':']);
    reveal_strlit("::");
    lemma_symbol_key_ascii("::");
    assert("::"@ =~= seq![':', ':']);
    reveal_strlit(";");
    lemma_symbol_key_ascii(";");
    assert(";"@ =~= seq![';']);
    reveal_strlit("<");
    lemma_symbol_key_ascii("<");
    assert("<"@ =~= seq!['<']);
    reveal_strlit("<<");
    lemma_symbol_key_ascii("<<");
    assert("<<"@ =~= seq!['<', '<']);
    reveal_strlit("<<=");
    lemma_symbol_key_ascii("<<=");
    assert("<<="@ =~= seq!['<', '<', '=']);
    reveal_strlit("<=");
    lemma_symbol_key_ascii("<=");
    assert("<="@ =~= seq!['<', '=']);
    reveal_strlit("=");
    lemma_symbol_key_ascii("=");
    assert("="@ =~= seq!['=']);
    reveal_strlit("==");
    lemma_symbol_key_ascii("==");
    assert("=="@ =~= seq!['=', '=']);
    reveal_strlit(">");
    lemma_symbol_key_ascii(">");
    assert(">"@ =~= seq!['>']);
    reveal_strlit(">=");
    lemma_symbol_key_ascii(">=");
    assert(">="@ =~= seq!['>', '=']);
    reveal_strlit(">>");
    lemma_symbol_key_ascii(">>");
    assert(">>"@ =~= seq!['>', '>']);
    reveal_strlit(">>=");
    lemma_symbol_key_ascii(">>=");
    assert(">>="@ =~= seq!['>', '>', '=']);
    reveal_strlit("@");
    lemma_symbol_key_ascii("@");
    assert("@"@ =~= seq!['@']);
    reveal_strlit("[");
    lemma_symbol_key_ascii("[");
    assert("["@ =~= seq!['[']);
    reveal_strlit("]");
    lemma_symbol_key_ascii("]");
    assert("]"@ =~= seq![']']);
    reveal_strlit("^");
    lemma_symbol_key_ascii("^");
    assert("^"@ =~= seq!['^']);
    reveal_strlit("^=");
    lemma_symbol_key_ascii("^=");
    assert("^="@ =~= seq!['^', '=']);
    reveal_strlit("{");
    lemma_symbol_key_ascii("{");
    assert("{"@ =~= seq!['{']);
    reveal_strlit("|");
    lemma_symbol_key_ascii("|");
    assert("|"@ =~= seq!['|']);
    reveal_strlit("|=");
    lemma_symbol_key_ascii("|=");
    assert("|="@ =~= seq!['|', '=']);
    reveal_strlit("||");
    lemma_symbol_key_ascii("||");
    assert("||"@ =~= seq!['|', '|']);
    reveal_strlit("}");
    lemma_symbol_key_ascii("}");
    assert("}"@ =~= seq!['}']);
    reveal_strlit("~");
    lemma_symbol_key_ascii("~");
    assert("~"@ =~= seq!['~']);
}

/// The length and the characters of each symbol's spelling.
proof fn lemma_spelling_chars()
    ensures
        seq!['('].len() == 1 && seq!['('][0] == '(',
        seq![')'].len() == 1 && seq![')'][0] == ')',
        seq!['{'].len() == 1 && seq!['{'][0] == '{',
        seq!['}'].len() == 1 && seq!['}'][0] == '}',
        seq!['['].len() == 1 && seq!['['][0] == '[',
        seq![']'].len() == 1 && seq![']'][0] == ']',
        seq!['<'].len() == 1 && seq!['<'][0] == '<',
        seq!['>'].len() == 1 && seq!['>'][0] == '>',
        seq![':'].len() == 1 && seq![':'][0] == ':',
        seq![';'].len() == 1 && seq![';'][0] == ';',
        seq!['.'].len() == 1 && seq!['.'][0] == '.',
        seq![','].len() == 1 && seq![','][0] == ',',
        seq!['@'].len() == 1 && seq!['@'][0] == '@',
        seq![':', ':'].len() == 2 && seq![':', ':'][0] == ':' && seq![':', ':'][1] == ':',
        seq!['='].len() == 1 && seq!['='][0] == '=',
        seq!['+', '='].len() == 2 && seq!['+', '='][0] == '+' && seq!['+', '='][1] == '=',
        seq!['-', '='].len() == 2 && seq!['-', '='][0] == '-' && seq!['-', '='][1] == '=',
        seq!['*', '='].len() == 2 && seq!['*', '='][0] == '*' && seq!['*', '='][1] == '=',
        seq!['/', '='].len() == 2 && seq!['/', '='][0] == '/' && seq!['/', '='][1] == '=',
        seq!['%', '='].len() == 2 && seq!['%', '='][0] == '%' && seq!['%', '='][1] == '=',
        seq!['&', '='].len() == 2 && seq!['&', '='][0] == '&' && seq!['&', '='][1] == '=',
        seq!['|', '='].len() == 2 && seq!['|', '='][0] == '|' && seq!['|', '='][1] == '=',
        seq!['<', '<', '='].len() == 3 && seq!['<', '<', '='][0] == '<' && seq!['<', '<', '='][1] == '<' && seq!['<', '<', '='][2] == '=',
        seq!['>', '>', '='].len() == 3 && seq!['>', '>', '='][0] == '>' && seq!['>', '>', '='][1] == '>' && seq!['>', '>', '='][2] == '=',
        seq!['^', '='].len() == 2 && seq!['^', '='][0] == '^' && seq!['^', '='][1] == '=',
        seq!['+'].len() == 1 && seq!['+'][0] == '+',
        seq!['-'].len() == 1 && seq!['-'][0] == '-',
        seq!['*'].len() == 1 && seq!['*'][0] == '*',
        seq!['/'].len() == 1 && seq!['/'][0] == '/',
        seq!['%'].len() == 1 && seq!['%'][0] == '%',
        seq!['&'].len() == 1 && seq!['&'][0] == '&',
        seq!['&', '&'].len() == 2 && seq!['&', '&'][0] == '&' && seq!['&', '&'][1] == '&',
        seq!['|'].len() == 1 && seq!['|'][0] == '|',
        seq!['|', '|'].len() == 2 && seq!['|', '|'][0] == '|' && seq!['|', '|'][1] == '|',
        seq!['!'].len() == 1 && seq!['!'][0] == '!',
        seq!['~'].len() == 1 && seq!['~'][0] == '~',
        seq!['>', '>'].len() == 2 && seq!['>', '>'][0] == '>' && seq!['>', '>'][1] == '>',
        seq!['<', '<'].len() == 2 && seq!['<', '<'][0] == '<' && seq!['<', '<'][1] == '<',
        seq!['^'].len() == 1 && seq!['^'][0] == '^',
        seq!['=', '='].len() == 2 && seq!['=', '='][0] == '=' && seq!['=', '='][1] == '=',
        seq!['!', '='].len() == 2 && seq!['!', '='][0] == '!' && seq!['!', '='][1] == '=',
        seq!['>', '='].len() == 2 && seq!['>', '='][0] == '>' && seq!['>', '='][1] == '=',
        seq!['<', '='].len() == 2 && seq!['<', '='][0] == '<' && seq!['<', '='][1] == '=',
{
}

/// Each operator and punctuation symbol is read as its token, stated
/// spelling by spelling: `-` as `Minus`, `+` as `Plus`, `<<=` as `ShlBy`,
/// and so on for every symbol; `<` and `>` read as the comparisons `Lt` and
/// `Gt`.
#[verifier::rlimit(100)]
#[verifier::spinoff_prover]
pub proof fn law_symbol_spellings()
    ensures
        symbol_table().contains_key(seq!['(']) && symbol_table()[seq!['(']] == TokenType::LParen,
        symbol_table().contains_key(seq![')']) && symbol_table()[seq![')']] == TokenType::RParen,
        symbol_table().contains_key(seq!['{']) && symbol_table()[seq!['{']] == TokenType::LBrace,
        symbol_table().contains_key(seq!['}']) && symbol_table()[seq!['}']] == TokenType::RBrace,
        symbol_table().contains_key(seq!['[']) && symbol_table()[seq!['[']] == TokenType::LBracket,
        symbol_table().contains_key(seq![']']) && symbol_table()[seq![']']] == TokenType::RBracket,
        symbol_table().contains_key(seq!['<']) && symbol_table()[seq!['<']] == TokenType::Lt,
        symbol_table().contains_key(seq!['>']) && symbol_table()[seq!['>']] == TokenType::Gt,
        symbol_table().contains_key(seq![':']) && symbol_table()[seq![':']] == TokenType::Colon,
        symbol_table().contains_key(seq![';']) && symbol_table()[seq![';']] == TokenType::Semicolon,
        symbol_table().contains_key(seq!['.']) && symbol_table()[seq!['.']] == TokenType::Dot,
        symbol_table().contains_key(seq![',']) && symbol_table()[seq![',']] == TokenType::Comma,
        symbol_table().contains_key(seq!['@']) && symbol_table()[seq!['@']] == TokenType::At,
        symbol_table().contains_key(seq![':', ':']) && symbol_table()[seq![':', ':']] == TokenType::DoubleColon,
        symbol_table().contains_key(seq!['=']) && symbol_table()[seq!['=']] == TokenType::Assign,
        symbol_table().contains_key(seq!['+', '=']) && symbol_table()[seq!['+', '=']] == TokenType::IncrBy,
        symbol_table().contains_key(seq!['-', '=']) && symbol_table()[seq!['-', '=']] == TokenType::DecrBy,
        symbol_table().contains_key(seq!['*', '=']) && symbol_table()[seq!['*', '=']] == TokenType::MulBy,
        symbol_table().contains_key(seq!['/', '=']) && symbol_table()[seq!['/', '=']] == TokenType::DivBy,
        symbol_table().contains_key(seq!['%', '=']) && symbol_table()[seq!['%', '=']] == TokenType::ModBy,
        symbol_table().contains_key(seq!['&', '=']) && symbol_table()[seq!['&', '=']] == TokenType::AndBy,
        symbol_table().contains_key(seq!['|', '=']) && symbol_table()[seq!['|', '=']] == TokenType::OrBy,
        symbol_table().contains_key(seq!['<', '<', '=']) && symbol_table()[seq!['<', '<', '=']] == TokenType::ShlBy,
        symbol_table().contains_key(seq!['>', '>', '=']) && symbol_table()[seq!['>', '>', '=']] == TokenType::ShrBy,
        symbol_table().contains_key(seq!['^', '=']) && symbol_table()[seq!['^', '=']] == TokenType::XorBy,
        symbol_table().contains_key(seq!['+']) && symbol_table()[seq!['+']] == TokenType::Plus,
        symbol_table().contains_key(seq!['-']) && symbol_table()[seq!['-']] == TokenType::Minus,
        symbol_table().contains_key(seq!['*']) && symbol_table()[seq!['*']] == TokenType::Times,
        symbol_table().contains_key(seq!['/']) && symbol_table()[seq!['/']] == TokenType::Divide,
        symbol_table().contains_key(seq!['%']) && symbol_table()[seq!['%']] == TokenType::Modulo,
        symbol_table().contains_key(seq!['&']) && symbol_table()[seq!['&']] == TokenType::And,
        symbol_table().contains_key(seq!['&', '&']) && symbol_table()[seq!['&', '&']] == TokenType::And2,
        symbol_table().contains_key(seq!['|']) && symbol_table()[seq!['|']] == TokenType::Or,
        symbol_table().contains_key(seq!['|', '|']) && symbol_table()[seq!['|', '|']] == TokenType::Or2,
        symbol_table().contains_key(seq!['!']) && symbol_table()[seq!['!']] == TokenType::Not,
        symbol_table().contains_key(seq!['~']) && symbol_table()[seq!['~']] == TokenType::Invert,
        symbol_table().contains_key(seq!['>', '>']) && symbol_table()[seq!['>', '>']] == TokenType::Shr,
        symbol_table().contains_key(seq!['<', '<']) && symbol_table()[seq!['<', '<']] == TokenType::Shl,
        symbol_table().contains_key(seq!['^']) && symbol_table()[seq!['^']] == TokenType::Xor,
        symbol_table().contains_key(seq!['=', '=']) && symbol_table()[seq!['=', '=']] == TokenType::Eq,
        symbol_table().contains_key(seq!['!', '=']) && symbol_table()[seq!['!', '=']] == TokenType::Neq,
        symbol_table().contains_key(seq!['>', '=']) && symbol_table()[seq!['>', '=']] == TokenType::GtOrEq,
        symbol_table().contains_key(seq!['<', '=']) && symbol_table()[seq!['<', '=']] == TokenType::LtOrEq,
{
    lemma_spelled_symbol_table();
    lemma_spelling_chars();
    reveal(spelled_symbol_table);
}

pub fn tree_all_symbols() -> (tree: CharTree<TokenType>)
    ensures
        tree.wf(),
        tree@ == symbol_table(),
{
    reveal(symbol_table);
    let mut tree: CharTree<TokenType> = CharTree::new();

    proof { reveal_strlit("("); }
    tree.insert_str("(", TokenType::LParen);
    proof { reveal_strlit(")"); }
    tree.insert_str(")", TokenType::RParen);
    proof { reveal_strlit("{"); }
    tree.insert_str("{", TokenType::LBrace);
    proof { reveal_strlit("}"); }
    tree.insert_str("}", TokenType::RBrace);
    proof { reveal_strlit("["); }
    tree.insert_str("[", TokenType::LBracket);
    proof { reveal_strlit("]"); }
    tree.insert_str("]", TokenType::RBracket);
    proof { reveal_strlit("<"); }
    tree.insert_str("<", TokenType::LAngle);
    proof { reveal_strlit(">"); }
    tree.insert_str(">", TokenType::RAngle);
    proof { reveal_strlit(":"); }
    tree.insert_str(":", TokenType::Colon);
    proof { reveal_strlit(";"); }
    tree.insert_str(";", TokenType::Semicolon);
    proof { reveal_strlit("."); }
    tree.insert_str(".", TokenType::Dot);
    proof { reveal_strlit(","); }
    tree.insert_str(",", TokenType::Comma);
    proof { reveal_strlit("@"); }
    tree.insert_str("@", TokenType::At);
    proof { reveal_strlit("::"); }
    tree.insert_str("::", TokenType::DoubleColon);
    proof { reveal_strlit("="); }
    tree.insert_str("=", TokenType::Assign);
    proof { reveal_strlit("+="); }
    tree.insert_str("+=", TokenType::IncrBy);
    proof { reveal_strlit("-="); }
    tree.insert_str("-=", TokenType::DecrBy);
    proof { reveal_strlit("*="); }
    tree.insert_str("*=", TokenType::MulBy);
    proof { reveal_strlit("/="); }
    tree.insert_str("/=", TokenType::DivBy);
    proof { reveal_strlit("%="); }
    tree.insert_str("%=", TokenType::ModBy);
    proof { reveal_strlit("&="); }
    tree.insert_str("&=", TokenType::AndBy);
    proof { reveal_strlit("|="); }
    tree.insert_str("|=", TokenType::OrBy);
    proof { reveal_strlit("<<="); }
    tree.insert_str("<<=", TokenType::ShlBy);
    proof { reveal_strlit(">>="); }
    tree.insert_str(">>=", TokenType::ShrBy);
    proof { reveal_strlit("^="); }
    tree.insert_str("^=", TokenType::XorBy);
    proof { reveal_strlit("+"); }
    tree.insert_str("+", TokenType::Plus);
    proof { reveal_strlit("-"); }
    tree.insert_str("-", TokenType::Minus);
    proof { reveal_strlit("*"); }
    tree.insert_str("*", TokenType::Times);
    proof { reveal_strlit("/"); }
    tree.insert_str("/", TokenType::Divide);
    proof { reveal_strlit("%"); }
    tree.insert_str("%", TokenType::Modulo);
    proof { reveal_strlit("&"); }
    tree.insert_str("&", TokenType::And);
    proof { reveal_strlit("&&"); }
    tree.insert_str("&&", TokenType::And2);
    proof { reveal_strlit("|"); }
    tree.insert_str("|", TokenType::Or);
    proof { reveal_strlit("||"); }
    tree.insert_str("||", TokenType::Or2);
    proof { reveal_strlit("!"); }
    tree.insert_str("!", TokenType::Not);
    proof { reveal_strlit("~"); }
    tree.insert_str("~", TokenType::Invert);
    proof { reveal_strlit(">>"); }
    tree.insert_str(">>", TokenType::Shr);
    proof { reveal_strlit("<<"); }
    tree.insert_str("<<", TokenType::Shl);
    proof { reveal_strlit("^"); }
    tree.insert_str("^", TokenType::Xor);
    proof { reveal_strlit("=="); }
    tree.insert_str("==", TokenType::Eq);
    proof { reveal_strlit("!="); }
    tree.insert_str("!=", TokenType::Neq);
    proof { reveal_strlit(">"); }
    tree.insert_str(">", TokenType::Gt);
    proof { reveal_strlit(">="); }
    tree.insert_str(">=", TokenType::GtOrEq);
    proof { reveal_strlit("<"); }
    tree.insert_str("<", TokenType::Lt);
    proof { reveal_strlit("<="); }
    tree.insert_str("<=", TokenType::LtOrEq);
    assert(tree@ =~= symbol_table());
    tree
}

/// The keyword token spelled by `s`, if `s` is a keyword.
#[verifier::opaque]
pub open spec fn keyword_of(s: Seq<char>) -> Option<TokenType> {
    if s == "fn"@ {
        Some(TokenType::Fn)
    } else if s == "public"@ {
        Some(TokenType::Public)
    } else if s == "let"@ {
        Some(TokenType::Let)
    } else if s == "mut"@ {
        Some(TokenType::Mut)
    } else if s == "use"@ {
        Some(TokenType::Use)
    } else if s == "self"@ {
        Some(TokenType::LSelf)
    } else if s == "Self"@ {
        Some(TokenType::USelf)
    } else if s == "struct"@ {
        Some(TokenType::Struct)
    } else if s == "impl"@ {
        Some(TokenType::Impl)
    } else if s == "if"@ {
        Some(TokenType::If)
    } else if s == "else"@ {
        Some(TokenType::Else)
    } else if s == "match"@ {
        Some(TokenType::Match)
    } else if s == "dyn"@ {
        Some(TokenType::Dyn)
    } else if s == "true"@ {
        Some(TokenType::BoolLiteral(true))
    } else if s == "false"@ {
        Some(TokenType::BoolLiteral(false))
    } else {
        None
    }
}

/// Each keyword spelling is read as its token: `fn` as `Fn`, `public` as
/// `Public`, `let` as `Let`, `mut` as `Mut`, `use` as `Use`, `self` as
/// `LSelf`, `Self` as `USelf`, `struct`, `impl`, `if`, `else`, `match` and
/// `dyn` as their tokens, and `true` and `false` as the boolean literals.
#[verifier::rlimit(100)]
#[verifier::spinoff_prover]
pub proof fn law_keyword_spellings()
    ensures
        keyword_of(seq!['f', 'n']) == Some(TokenType::Fn),
        keyword_of(seq!['p', 'u', 'b', 'l', 'i', 'c']) == Some(TokenType::Public),
        keyword_of(seq!['l', 'e', 't']) == Some(TokenType::Let),
        keyword_of(seq!['m', 'u', 't']) == Some(TokenType::Mut),
        keyword_of(seq!['u', 's', 'e']) == Some(TokenType::Use),
        keyword_of(seq!['s', 'e', 'l', 'f']) == Some(TokenType::LSelf),
        keyword_of(seq!['S', 'e', 'l', 'f']) == Some(TokenType::USelf),
        keyword_of(seq!['s', 't', 'r', 'u', 'c', 't']) == Some(TokenType::Struct),
        keyword_of(seq!['i', 'm', 'p', 'l']) == Some(TokenType::Impl),
        keyword_of(seq!['i', 'f']) == Some(TokenType::If),
        keyword_of(seq!['e', 'l', 's', 'e']) == Some(TokenType::Else),
        keyword_of(seq!['m', 'a', 't', 'c', 'h']) == Some(TokenType::Match),
        keyword_of(seq!['d', 'y', 'n']) == Some(TokenType::Dyn),
        keyword_of(seq!['t', 'r', 'u', 'e']) == Some(TokenType::BoolLiteral(true)),
        keyword_of(seq!['f', 'a', 'l', 's', 'e']) == Some(TokenType::BoolLiteral(false)),
{
    reveal(keyword_of);
    reveal_strlit("fn");
    assert("fn"@ =~= seq!['f', 'n']);
    reveal_strlit("public");
    assert("public"@ =~= seq!['p', 'u', 'b', 'l', 'i', 'c']);
    reveal_strlit("let");
    assert("let"@ =~= seq!['l', 'e', 't']);
    reveal_strlit("mut");
    assert("mut"@ =~= seq!['m', 'u', 't']);
    reveal_strlit("use");
    assert("use"@ =~= seq!['u', 's', 'e']);
    reveal_strlit("self");
    assert("self"@ =~= seq!['s', 'e', 'l', 'f']);
    reveal_strlit("Self");
    assert("Self"@ =~= seq!['S', 'e', 'l', 'f']);
    reveal_strlit("struct");
    assert("struct"@ =~= seq!['s', 't', 'r', 'u', 'c', 't']);
    reveal_strlit("impl");
    assert("impl"@ =~= seq!['i', 'm', 'p', 'l']);
    reveal_strlit("if");
    assert("if"@ =~= seq!['i', 'f']);
    reveal_strlit("else");
    assert("else"@ =~= seq!['e', 'l', 's', 'e']);
    reveal_strlit("match");
    assert("match"@ =~= seq!['m', 'a', 't', 'c', 'h']);
    reveal_strlit("dyn");
    assert("dyn"@ =~= seq!['d', 'y', 'n']);
    reveal_strlit("true");
    assert("true"@ =~= seq!['t', 'r', 'u', 'e']);
    reveal_strlit("false");
    assert("false"@ =~= seq!['f', 'a', 'l', 's', 'e']);
    assert(seq!['f', 'n'].len() == 2 && seq!['f', 'n'][0] == 'f' && seq!['f', 'n'][1] == 'n');
    assert(seq!['p', 'u', 'b', 'l', 'i', 'c'].len() == 6 && seq!['p', 'u', 'b', 'l', 'i', 'c'][0] == 'p' && seq!['p', 'u', 'b', 'l', 'i', 'c'][1] == 'u' && seq!['p', 'u', 'b', 'l', 'i', 'c'][2] == 'b' && seq!['p', 'u', 'b', 'l', 'i', 'c'][3] == 'l' && seq!['p', 'u', 'b', 'l', 'i', 'c'][4] == 'i' && seq!['p', 'u', 'b', 'l', 'i', 'c'][5] == 'c');
    assert(seq!['l', 'e', 't'].len() == 3 && seq!['l', 'e', 't'][0] == 'l' && seq!['l', 'e', 't'][1] == 'e' && seq!['l', 'e', 't'][2] == 't');
    assert(seq!['m', 'u', 't'].len() == 3 && seq!['m', 'u', 't'][0] == 'm' && seq!['m', 'u', 't'][1] == 'u' && seq!['m', 'u', 't'][2] == 't');
    assert(seq!['u', 's', 'e'].len() == 3 && seq!['u', 's', 'e'][0] == 'u' && seq!['u', 's', 'e'][1] == 's' && seq!['u', 's', 'e'][2] == 'e');
    assert(seq!['s', 'e', 'l', 'f'].len() == 4 && seq!['s', 'e', 'l', 'f'][0] == 's' && seq!['s', 'e', 'l', 'f'][1] == 'e' && seq!['s', 'e', 'l', 'f'][2] == 'l' && seq!['s', 'e', 'l', 'f'][3] == 'f');
    assert(seq!['S', 'e', 'l', 'f'].len() == 4 && seq!['S', 'e', 'l', 'f'][0] == 'S' && seq!['S', 'e', 'l', 'f'][1] == 'e' && seq!['S', 'e', 'l', 'f'][2] == 'l' && seq!['S', 'e', 'l', 'f'][3] == 'f');
    assert(seq!['s', 't', 'r', 'u', 'c', 't'].len() == 6 && seq!['s', 't', 'r', 'u', 'c', 't'][0] == 's' && seq!['s', 't', 'r', 'u', 'c', 't'][1] == 't' && seq!['s', 't', 'r', 'u', 'c', 't'][2] == 'r' && seq!['s', 't', 'r', 'u', 'c', 't'][3] == 'u' && seq!['s', 't', 'r', 'u', 'c', 't'][4] == 'c' && seq!['s', 't', 'r', 'u', 'c', 't'][5] == 't');
    assert(seq!['i', 'm', 'p', 'l'].len() == 4 && seq!['i', 'm', 'p', 'l'][0] == 'i' && seq!['i', 'm', 'p', 'l'][1] == 'm' && seq!['i', 'm', 'p', 'l'][2] == 'p' && seq!['i', 'm', 'p', 'l'][3] == 'l');
    assert(seq!['i', 'f'].len() == 2 && seq!['i', 'f'][0] == 'i' && seq!['i', 'f'][1] == 'f');
    assert(seq!['e', 'l', 's', 'e'].len() == 4 && seq!['e', 'l', 's', 'e'][0] == 'e' && seq!['e', 'l', 's', 'e'][1] == 'l' && seq!['e', 'l', 's', 'e'][2] == 's' && seq!['e', 'l', 's', 'e'][3] == 'e');
    assert(seq!['m', 'a', 't', 'c', 'h'].len() == 5 && seq!['m', 'a', 't', 'c', 'h'][0] == 'm' && seq!['m', 'a', 't', 'c', 'h'][1] == 'a' && seq!['m', 'a', 't', 'c', 'h'][2] == 't' && seq!['m', 'a', 't', 'c', 'h'][3] == 'c' && seq!['m', 'a', 't', 'c', 'h'][4] == 'h');
    assert(seq!['d', 'y', 'n'].len() == 3 && seq!['d', 'y', 'n'][0] == 'd' && seq!['d', 'y', 'n'][1] == 'y' && seq!['d', 'y', 'n'][2] == 'n');
    assert(seq!['t', 'r', 'u', 'e'].len() == 4 && seq!['t', 'r', 'u', 'e'][0] == 't' && seq!['t', 'r', 'u', 'e'][1] == 'r' && seq!['t', 'r', 'u', 'e'][2] == 'u' && seq!['t', 'r', 'u', 'e'][3] == 'e');
    assert(seq!['f', 'a', 'l', 's', 'e'].len() == 5 && seq!['f', 'a', 'l', 's', 'e'][0] == 'f' && seq!['f', 'a', 'l', 's', 'e'][1] == 'a' && seq!['f', 'a', 'l', 's', 'e'][2] == 'l' && seq!['f', 'a', 'l', 's', 'e'][3] == 's' && seq!['f', 'a', 'l', 's', 'e'][4] == 'e');
}

/// The keyword token spelled by `s`, if `s` is a keyword.
pub fn keyword(s: &str) -> (r: Option<TokenType>)
    ensures
        r == keyword_of(s@),
{
    reveal(keyword_of);
    if str_eq(s, "fn") {
        Some(TokenType::Fn)
    } else if str_eq(s, "public") {
        Some(TokenType::Public)
    } else if str_eq(s, "let") {
        Some(TokenType::Let)
    } else if str_eq(s, "mut") {
        Some(TokenType::Mut)
    } else if str_eq(s, "use") {
        Some(TokenType::Use)
    } else if str_eq(s, "self") {
        Some(TokenType::LSelf)
    } else if str_eq(s, "Self") {
        Some(TokenType::USelf)
    } else if str_eq(s, "struct") {
        Some(TokenType::Struct)
    } else if str_eq(s, "impl") {
        Some(TokenType::Impl)
    } else if str_eq(s, "if") {
        Some(TokenType::If)
    } else if str_eq(s, "else") {
        Some(TokenType::Else)
    } else if str_eq(s, "match") {
        Some(TokenType::Match)
    } else if str_eq(s, "dyn") {
        Some(TokenType::Dyn)
    } else if str_eq(s, "true") {
        Some(TokenType::BoolLiteral(true))
    } else if str_eq(s, "false") {
        Some(TokenType::BoolLiteral(false))
    } else {
        None
    }
}

/// Whether two string slices hold the same characters.
pub fn str_eq(a: &str, b: &str) -> (r: bool)
    ensures
        r == (a@ == b@),
{
    let x = chars_of(a);
    let y = chars_of(b);
    if x.len() != y.len() {
        return false;
    }
    let mut i: usize = 0;
    while i < x.len()
        invariant
            x@ == a@,
            y@ == b@,
            x@.len() == y@.len(),
            i <= x@.len(),
            forall|j: int| 0 <= j < i ==> x@[j] == y@[j],
        decreases x@.len() - i,
    {
        if x[i] != y[i] {
            return false;
        }
        i = i + 1;
    }
    assert(x@ =~= y@);
    true
}

/// The mathematical model of a token: its type with the text of a string
/// literal taken out (as `text`), its location and its flags.
pub struct TokenView {
    pub ty: TokenType,
    pub text: Seq<char>,
    pub location: Option<SourceSpan>,
    pub flags: u32,
}

/// The one string that stands for every string literal's text in a `TokenView`.
pub open spec fn blank_string() -> String {
    choose|s: String| #[trigger] s@.len() >= 0
}

/// A token type with the text of a string literal replaced by `blank_string()`.
pub open spec fn erase_text(ty: TokenType) -> TokenType {
    match ty {
        TokenType::StringLiteral(_) => TokenType::StringLiteral(blank_string()),
        _ => ty,
    }
}

/// The text of a string literal token type (empty for the other types).
pub open spec fn literal_text(ty: TokenType) -> Seq<char> {
    match ty {
        TokenType::StringLiteral(s) => s@,
        _ => Seq::empty(),
    }
}

impl View for Token {
    type V = TokenView;

    open spec fn view(&self) -> TokenView {
        TokenView {
            ty: erase_text(self.ty),
            text: literal_text(self.ty),
            location: self.location,
            flags: self.flags,
        }
    }
}

/// The models of a sequence of tokens.
pub open spec fn token_views(toks: Seq<Token>) -> Seq<TokenView> {
    toks.map_values(|t: Token| t@)
}

} // verus!
