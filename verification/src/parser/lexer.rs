use vstd::prelude::*;
use std::ops::Range;
use crate::chars::{is_whitespace, spec_is_whitespace, string_push};
use crate::parse::{longest_key_prefix, lemma_longest_key_prefix_bounds, CharIterator, CharTree};
use crate::source::{
    block_comment_close, char_or_eof, identifier_end, not_newline_pred, pair_at, skip_while,
    whitespace_pred, span_join, Cursor, OptionalChar, Source, SourceSpan, SourceSpanOps, EOF,
    lemma_skip_while_run, lemma_skip_while_bounds, lemma_block_comment_close_bounds,
};
use crate::spec::{escape_of, resolve_escaped_char};
use crate::parser::token::{
    blank_string, erase_text, keyword, keyword_of, symbol_table, token_views, tree_all_symbols, Errno, Token,
    TokenFlags, TokenType, TokenView,
};

verus! {

/// The result type of the `next_token` method. This intentionally does not
/// return a successful token on success, as Ok may also represent no errors,
/// but no token parsed. The authoritative state on tokens consumed is `self.tokens`
pub type NextTkResult = Result<(), /* index into `tokens` */ usize>;

/// The generic result which does not specify any result error,
/// only the range where it occurred.
pub type GenericConsumeResult<S> = Result<S, Option<SourceSpan>>;

pub const MSG_UNTERMINATED_STRING: &'static str = "unterminated string literal before eof";

pub const MSG_ILLEGAL_ESCAPE_STRING: &'static str = "illegal escape by character in str literal";

pub const MSG_ILLEGAL_ESCAPE_CHAR: &'static str = "illegal escape by character in char literal";

pub const MSG_UNTERMINATED_CHAR: &'static str = "unterminated char literal before eof";

pub const MSG_UNCLOSED_CHAR: &'static str =
    "unexpected character, expected `'` to close char literal";

pub const MSG_CLOSE_CHAR: &'static str = "expected `'` to close char literal";

pub const MSG_ILLEGAL_CHARACTERS: &'static str = "unexpected character(s) in tokenization";

// ---------------------------------------------------------------------------
// The lexing specification
// ---------------------------------------------------------------------------

/// The model of a token of type `ty` at `start..end`, with no flags.
pub open spec fn tok(ty: TokenType, start: int, end: int) -> TokenView {
    Token { ty, location: Some(Range { start: start as u32, end: end as u32 }), flags: 0 }@
}

/// The model of an error token.
pub open spec fn err_tok(errno: Errno, msg: &'static str, start: int, end: int) -> TokenView {
    tok(TokenType::Error(errno, msg), start, end)
}

/// The model of a string literal token with the given text.
pub open spec fn string_tok(text: Seq<char>, start: int, end: int) -> TokenView {
    TokenView {
        ty: TokenType::StringLiteral(blank_string()),
        text,
        location: Some(Range { start: start as u32, end: end as u32 }),
        flags: 0,
    }
}

/// Whether a line feed occurs in `s[a..b]`.
pub open spec fn has_newline(s: Seq<char>, a: int, b: int) -> bool {
    exists|k: int| a <= k < b && s[k] == '\n'
}

/// Whether a character other than a line feed occurs in `s[a..b]`.
pub open spec fn has_other_space(s: Seq<char>, a: int, b: int) -> bool {
    exists|k: int| a <= k < b && s[k] != '\n'
}

/// The flags that the whitespace `s[a..b]` gives the token before it:
/// `TAIL_NEWLINE` for a line feed in it, `TAIL_SPACE` for any other
/// whitespace character in it.
pub open spec fn ws_flags(s: Seq<char>, a: int, b: int) -> u32 {
    if has_newline(s, a, b) && has_other_space(s, a, b) {
        TokenFlags::TAIL_NEWLINE | TokenFlags::TAIL_SPACE
    } else if has_newline(s, a, b) {
        TokenFlags::TAIL_NEWLINE
    } else if has_other_space(s, a, b) {
        TokenFlags::TAIL_SPACE
    } else {
        0
    }
}

/// The tokens with `apply` added to the flags of the last one.
pub open spec fn flag_last(toks: Seq<TokenView>, apply: u32) -> Seq<TokenView> {
    if apply != 0 && toks.len() > 0 {
        let t = toks.last();
        toks.update(
            toks.len() - 1,
            TokenView { ty: t.ty, text: t.text, location: t.location, flags: t.flags | apply },
        )
    } else {
        toks
    }
}

/// Lexing the rest of a string literal opened at `start`, from index `j`,
/// with the characters `buf` read so far: the tokens it produces and the
/// index where lexing stops.
pub open spec fn lex_string(s: Seq<char>, start: int, j: int, buf: Seq<char>) -> (
    Seq<TokenView>,
    int,
)
    decreases s.len() - j,
{
    if j < 0 || char_or_eof(s, j) == EOF {
        (seq![err_tok(Errno::UnterminatedLiteral, MSG_UNTERMINATED_STRING, start, j)], j)
    } else if s[j] == '"' {
        (seq![string_tok(buf, start, j + 1)], j + 1)
    } else if s[j] == '\\' {
        let k = if j + 1 < s.len() {
            j + 2
        } else {
            j + 1
        };
        let esc = if j + 1 < s.len() {
            escape_of(s[j + 1])
        } else {
            None
        };
        match esc {
            Some(e) => lex_string(s, start, k, buf.push(e)),
            None => {
                let rest = lex_string(s, start, k, buf);
                (
                    seq![err_tok(Errno::IllegalEscapedChar, MSG_ILLEGAL_ESCAPE_STRING, j, k)]
                        + rest.0,
                    rest.1,
                )
            },
        }
    } else {
        lex_string(s, start, j + 1, buf.push(s[j]))
    }
}

/// Lexing a character literal whose opening quote is at `p`: the literal
/// character (or a backslash and the escape after it), then the closing quote.
pub open spec fn lex_char(s: Seq<char>, p: int, toks: Seq<TokenView>) -> (
    Seq<TokenView>,
    int,
    Result<(), usize>,
) {
    let p1 = p + 1;
    let c1 = char_or_eof(s, p1);
    if c1 == EOF {
        (
            toks.push(err_tok(Errno::UnterminatedLiteral, MSG_UNTERMINATED_CHAR, p, p1)),
            p1,
            Err(toks.len() as usize),
        )
    } else if c1 != '\\' {
        // the closing quote follows the literal character
        let p2 = p1 + 1;
        let next = if p2 < s.len() {
            p2 + 1
        } else {
            p2
        };
        if char_or_eof(s, p2) != '\'' {
            (
                toks.push(err_tok(Errno::IllegalCharacter, MSG_UNCLOSED_CHAR, p2, p2 + 1)),
                next,
                Err(toks.len() as usize),
            )
        } else {
            (toks.push(tok(TokenType::CharLiteral(c1), p, p2 + 1)), p2 + 1, Ok(()))
        }
    } else {
        // the escape is the character after the backslash
        let p2 = p1 + 1;
        let esc = if p2 < s.len() {
            escape_of(s[p2])
        } else {
            None
        };
        let p3 = if p2 < s.len() {
            p2 + 1
        } else {
            p2
        };
        let t1 = match esc {
            Some(e) => toks.push(tok(TokenType::CharLiteral(e), p, p3 + 1)),
            None => toks.push(err_tok(Errno::IllegalEscapedChar, MSG_ILLEGAL_ESCAPE_CHAR, p1, p3)),
        };
        let next = if p3 < s.len() {
            p3 + 1
        } else {
            p3
        };
        if char_or_eof(s, p3) != '\'' {
            (
                t1.push(err_tok(Errno::IllegalCharacter, MSG_CLOSE_CHAR, p3, p3 + 1)),
                next,
                Err(t1.len() as usize),
            )
        } else {
            (t1, next, Ok(()))
        }
    }
}

/// Whether a token type is the illegal-character error.
pub open spec fn is_illegal_character(ty: TokenType) -> bool {
    match ty {
        TokenType::Error(e, _) => e == Errno::IllegalCharacter,
        _ => false,
    }
}

/// An illegal character at `p`: it joins the previous illegal-character
/// error if the last token is one, and is a new error otherwise.
pub open spec fn lex_invalid(s: Seq<char>, p: int, toks: Seq<TokenView>) -> (
    Seq<TokenView>,
    int,
    Result<(), usize>,
) {
    let np = if p < s.len() {
        p + 1
    } else {
        p
    };
    let here = Range { start: p as u32, end: (p + 1) as u32 };
    if toks.len() > 0 && is_illegal_character(toks.last().ty) {
        let t = toks.last();
        let loc = match t.location {
            None => here,
            Some(l) => span_join(l, here),
        };
        (
            toks.update(
                toks.len() - 1,
                TokenView { ty: t.ty, text: t.text, location: Some(loc), flags: t.flags },
            ),
            np,
            Ok(()),
        )
    } else {
        (
            toks.push(err_tok(Errno::IllegalCharacter, MSG_ILLEGAL_CHARACTERS, p, p + 1)),
            np,
            Err(toks.len() as usize),
        )
    }
}

/// Lexing a token (not whitespace, not a comment) at `p`.
pub open spec fn lex_token(s: Seq<char>, p: int, toks: Seq<TokenView>) -> (
    Seq<TokenView>,
    int,
    Result<(), usize>,
) {
    let rest = s.subrange(p, s.len() as int);
    let k = longest_key_prefix(symbol_table(), rest, rest.len() as int);
    if k > 0 {
        (toks.push(tok(symbol_table()[rest.take(k)], p, p + k)), p + k, Ok(()))
    } else {
        match identifier_end(s, p) {
            Some(e) => {
                let ty = match keyword_of(s.subrange(p, e)) {
                    Some(k) => k,
                    None => TokenType::Identifier,
                };
                (toks.push(tok(ty, p, e)), e, Ok(()))
            },
            None => if char_or_eof(s, p) == '"' {
                let r = lex_string(s, p, p + 1, Seq::empty());
                (toks + r.0, r.1, Ok(()))
            } else if char_or_eof(s, p) == '\'' {
                lex_char(s, p, toks)
            } else {
                lex_invalid(s, p, toks)
            },
        }
    }
}

/// One step of the lexer from index `pos` with the tokens `toks` so far:
/// the tokens after the step, the index where the step stops, and its result.
pub open spec fn lex_next(s: Seq<char>, pos: int, toks: Seq<TokenView>) -> (
    Seq<TokenView>,
    int,
    Result<(), usize>,
) {
    let w = skip_while(s, pos, whitespace_pred());
    let t1 = flag_last(toks, ws_flags(s, pos, w));
    if w >= s.len() {
        (t1, w, Ok(()))
    } else if pair_at(s, w, '/', '*') {
        match block_comment_close(s, w + 2) {
            Some(e) => (t1, e, Ok(())),
            None => lex_token(s, s.len() as int, t1),
        }
    } else if pair_at(s, w, '/', '/') {
        (t1, skip_while(s, w + 2, not_newline_pred()), Ok(()))
    } else {
        lex_token(s, w, t1)
    }
}

/// The indices of the error tokens, in order.
pub open spec fn error_indices(toks: Seq<TokenView>) -> Seq<usize>
    decreases toks.len(),
{
    if toks.len() == 0 {
        Seq::empty()
    } else {
        let prev = error_indices(toks.drop_last());
        if toks.last().ty is Error {
            prev.push((toks.len() - 1) as usize)
        } else {
            prev
        }
    }
}

/// Lexing from index `pos` to the end of the source, starting with the
/// tokens `toks`: the tokens after the last step.
pub open spec fn lex_all(s: Seq<char>, pos: int, toks: Seq<TokenView>) -> Seq<TokenView>
    decreases s.len() - pos,
{
    if 0 <= pos < s.len() {
        let x = lex_next(s, pos, toks);
        if pos < x.1 <= s.len() {
            lex_all(s, x.1, x.0)
        } else {
            toks
        }
    } else {
        toks
    }
}

pub proof fn lemma_lex_string_bounds(s: Seq<char>, start: int, j: int, buf: Seq<char>)
    requires
        0 <= j <= s.len(),
    ensures
        j <= lex_string(s, start, j, buf).1 <= s.len(),
    decreases s.len() - j,
{
    if char_or_eof(s, j) != EOF && s[j] != '"' {
        if s[j] == '\\' {
            let k = if j + 1 < s.len() {
                j + 2
            } else {
                j + 1
            };
            let esc = if j + 1 < s.len() {
                escape_of(s[j + 1])
            } else {
                None
            };
            match esc {
                Some(e) => lemma_lex_string_bounds(s, start, k, buf.push(e)),
                None => lemma_lex_string_bounds(s, start, k, buf),
            }
        } else {
            lemma_lex_string_bounds(s, start, j + 1, buf.push(s[j]));
        }
    }
}

/// Lexing a token at `p` moves forward (unless at the end) and stays
/// within the source.
pub proof fn lemma_lex_token_progress(s: Seq<char>, p: int, toks: Seq<TokenView>)
    requires
        0 <= p <= s.len(),
    ensures
        p <= lex_token(s, p, toks).1 <= s.len(),
        p < s.len() ==> p < lex_token(s, p, toks).1,
{
    let rest = s.subrange(p, s.len() as int);
    lemma_longest_key_prefix_bounds(symbol_table(), rest, rest.len() as int);
    if identifier_end(s, p) is Some {
        lemma_skip_while_bounds(s, p + 1, crate::source::ident_continue_pred());
    }
    if p < s.len() {
        lemma_lex_string_bounds(s, p, p + 1, Seq::empty());
    }
}

/// Each step of the lexer moves forward, and stays within the source.
pub proof fn lemma_lex_next_progress(s: Seq<char>, pos: int, toks: Seq<TokenView>)
    requires
        0 <= pos < s.len(),
    ensures
        pos < lex_next(s, pos, toks).1 <= s.len(),
{
    let w = skip_while(s, pos, whitespace_pred());
    let t1 = flag_last(toks, ws_flags(s, pos, w));
    lemma_skip_while_bounds(s, pos, whitespace_pred());
    if w < s.len() {
        if pair_at(s, w, '/', '*') {
            lemma_block_comment_close_bounds(s, w + 2);
            lemma_lex_token_progress(s, s.len() as int, t1);
        } else if pair_at(s, w, '/', '/') {
            lemma_skip_while_bounds(s, w + 2, not_newline_pred());
        } else {
            lemma_lex_token_progress(s, w, t1);
        }
    }
}

pub proof fn lemma_error_indices_push(toks: Seq<TokenView>, t: TokenView)
    ensures
        error_indices(toks.push(t)) == (if t.ty is Error {
            error_indices(toks).push(toks.len() as usize)
        } else {
            error_indices(toks)
        }),
{
    assert(toks.push(t).drop_last() =~= toks);
}

pub proof fn lemma_error_indices_update(toks: Seq<TokenView>, i: int, t: TokenView)
    requires
        0 <= i < toks.len(),
        (t.ty is Error) == (toks[i].ty is Error),
    ensures
        error_indices(toks.update(i, t)) == error_indices(toks),
    decreases toks.len(),
{
    let u = toks.update(i, t);
    if i < toks.len() - 1 {
        assert(u.drop_last() =~= toks.drop_last().update(i, t));
        lemma_error_indices_update(toks.drop_last(), i, t);
    } else {
        assert(u.drop_last() =~= toks.drop_last());
    }
}

// ---------------------------------------------------------------------------
// The lexer
// ---------------------------------------------------------------------------

/// Represents the lexer configuration and state.
///
/// `unit` is the lifetime of the compilation unit and thus the source.
pub struct Lexer<'unit> {
    /// The loaded source code to be compiled.
    source: &'unit Source,
    /// The current (owned) cursor into the source string.
    cursor: Cursor<'unit>,
    /// The result vector of tokens
    tokens: Vec<Token>,
    /// The vector of only error tokens as indices into `self.tokens`
    error_tokens: Vec<usize>,
    /// The character tree of all symbol tokens.
    symbols: CharTree<TokenType>,
}

impl<'unit> Lexer<'unit> {
    pub closed spec fn spec_source(&self) -> Source {
        *self.source
    }

    /// The source text.
    pub open spec fn spec_text(&self) -> Seq<char> {
        self.spec_source()@
    }

    /// The cursor.
    pub closed spec fn spec_cursor(&self) -> Cursor<'unit> {
        self.cursor
    }

    /// The index of the cursor into the source.
    pub open spec fn spec_pos(&self) -> u32 {
        self.spec_cursor().pos()
    }

    pub closed spec fn spec_tokens(&self) -> Seq<Token> {
        self.tokens@
    }

    /// The models of the tokens.
    pub open spec fn spec_views(&self) -> Seq<TokenView> {
        token_views(self.spec_tokens())
    }

    pub closed spec fn spec_error_tokens(&self) -> Seq<usize> {
        self.error_tokens@
    }

    /// The cursor walks over the lexer's source, the symbol tree holds the
    /// symbol table, and `error_tokens` lists the error tokens.
    pub closed spec fn wf(&self) -> bool {
        &&& self.source.wf()
        &&& self.cursor.wf()
        &&& self.cursor.text() == self.source@
        &&& self.symbols.wf()
        &&& self.symbols@ == symbol_table()
        &&& self.error_tokens@ == error_indices(token_views(self.tokens@))
        &&& self.tokens@.len() <= usize::MAX
    }

    /// The lexer's invariant: the error list indexes exactly the error tokens.
    pub proof fn lemma_wf(&self)
        requires
            self.wf(),
        ensures
            self.spec_error_tokens() == error_indices(self.spec_views()),
            self.spec_pos() <= self.spec_text().len(),
            self.spec_cursor().text() == self.spec_text(),
    {
    }

    /// The error list of a lexer indexes exactly its error tokens, each
    /// once, in the order in which they were produced.
    pub proof fn law_error_list_is_exact(&self)
        requires
            self.wf(),
        ensures
            forall|k: int|
                0 <= k < self.spec_error_tokens().len() ==> self.spec_error_tokens()[k]
                    < self.spec_views().len() && (#[trigger] self.spec_views()[self.spec_error_tokens()[k] as int]).ty is Error,
            forall|k1: int, k2: int|
                0 <= k1 < k2 < self.spec_error_tokens().len() ==> self.spec_error_tokens()[k1]
                    < self.spec_error_tokens()[k2],
            forall|i: int|
                0 <= i < self.spec_views().len() && (#[trigger] self.spec_views()[i]).ty is Error
                    ==> exists|k: int|
                    0 <= k < self.spec_error_tokens().len() && self.spec_error_tokens()[k] == i,
    {
        assert(self.tokens.len() == self.tokens@.len());
        lemma_error_indices_exact(self.spec_views());
    }

    pub fn new(source: &'unit Source) -> (l: Self)
        requires
            source.wf(),
        ensures
            l.wf(),
            l.spec_source() == *source,
            l.spec_cursor().src() == *source,
            l.spec_pos() == 0,
            l.spec_tokens() == Seq::<Token>::empty(),
    {
        let l = Lexer {
            source,
            cursor: Cursor::new(source),
            tokens: Vec::new(),
            error_tokens: Vec::new(),
            symbols: tree_all_symbols(),
        };
        assert(token_views(l.tokens@) =~= Seq::<TokenView>::empty());
        l
    }

    pub fn tokens(&self) -> (t: &Vec<Token>)
        ensures
            t@ == self.spec_tokens(),
    {
        &self.tokens
    }

    pub fn cursor(&self) -> (c: &Cursor<'_>)
        ensures
            *c == self.spec_cursor(),
    {
        &self.cursor
    }

    /// The number of error tokens.
    pub fn error_count(&self) -> (n: usize)
        requires
            self.wf(),
        ensures
            n == error_indices(self.spec_views()).len(),
    {
        self.error_tokens.len()
    }

    /// The error tokens, in order.
    pub fn errors(&self) -> (r: Vec<&Token>)
        requires
            self.wf(),
        ensures
            r@.len() == error_indices(self.spec_views()).len(),
            forall|i: int|
                0 <= i < r@.len() ==> *r@[i] == self.spec_tokens()[error_indices(
                    self.spec_views(),
                )[i] as int],
    {
        proof {
            lemma_error_indices_bounded(self.spec_views());
        }
        let mut r: Vec<&Token> = Vec::new();
        let mut i: usize = 0;
        while i < self.error_tokens.len()
            invariant
                self.wf(),
                i <= self.error_tokens@.len(),
                r@.len() == i,
                forall|k: int| 0 <= k < self.error_tokens@.len() ==> self.error_tokens@[k] < self.tokens@.len(),
                forall|k: int|
                    0 <= k < i ==> *r@[k] == self.tokens@[self.error_tokens@[k] as int],
            decreases self.error_tokens@.len() - i,
        {
            r.push(&self.tokens[self.error_tokens[i]]);
            i = i + 1;
        }
        r
    }

    /// Gives up the lexer for its list of tokens.
    pub fn take_tokens(self) -> (t: Vec<Token>)
        ensures
            t@ == self.spec_tokens(),
    {
        self.tokens
    }

    fn err(&mut self, errno: Errno, msg: &'static str, loc: Option<Range<u32>>) -> (idx: usize)
        requires
            old(self).wf(),
        ensures
            final(self).wf(),
            final(self).spec_source() == old(self).spec_source(),
            final(self).spec_cursor() == old(self).spec_cursor(),
            final(self).spec_tokens() == old(self).spec_tokens().push(
                Token { ty: TokenType::Error(errno, msg), flags: 0, location: loc },
            ),
            idx == old(self).spec_tokens().len(),
    {
        self.make(TokenType::Error(errno, msg), loc)
    }

    fn make(&mut self, ty: TokenType, loc: Option<Range<u32>>) -> (idx: usize)
        requires
            old(self).wf(),
        ensures
            final(self).wf(),
            final(self).spec_source() == old(self).spec_source(),
            final(self).spec_cursor() == old(self).spec_cursor(),
            final(self).spec_tokens() == old(self).spec_tokens().push(
                Token { ty, flags: 0, location: loc },
            ),
            idx == old(self).spec_tokens().len(),
    {
        let idx = self.tokens.len();
        let is_error = ty.is_error();
        let ghost old_tokens = self.tokens@;
        self.tokens.push(Token { ty, flags: 0, location: loc });
        let _len = self.tokens.len();
        proof {
            assert(token_views(self.tokens@) =~= token_views(old_tokens).push(
                self.tokens@[idx as int]@,
            ));
            lemma_error_indices_push(token_views(old_tokens), self.tokens@[idx as int]@);
        }
        if is_error {
            self.error_tokens.push(idx);
        }
        idx
    }

    /// Consumes whitespace and adds the whitespace flags to the last token.
    fn consume_whitespace(&mut self) -> (r: &mut Self)
        requires
            old(self).wf(),
        ensures
            r.wf(),
            r.spec_source() == old(self).spec_source(),
            r.spec_pos() == skip_while(
                old(self).spec_text(),
                old(self).spec_pos() as int,
                whitespace_pred(),
            ),
            r.spec_views() == flag_last(
                old(self).spec_views(),
                ws_flags(old(self).spec_text(), old(self).spec_pos() as int, r.spec_pos() as int),
            ),
            *final(self) == *final(r),
    {
        let mut apply: u32 = 0;  // the flags to be applied to the last token
        let ghost s = self.spec_text();
        let ghost start = self.cursor.pos() as int;
        let mut cursor = self.cursor;
        while !cursor.done() && is_whitespace(cursor.peek())
            invariant
                cursor.wf(),
                cursor.same_source(self.cursor),
                s == cursor.text(),
                start <= cursor.pos() <= s.len(),
                forall|k: int| start <= k < cursor.pos() ==> #[trigger] spec_is_whitespace(s[k]),
                apply == ws_flags(s, start, cursor.pos() as int),
            decreases s.len() - cursor.pos(),
        {
            let char = cursor.peek();
            let ghost p = cursor.pos() as int;
            proof {
                lemma_ws_flags_step(s, start, p, apply);
            }
            if char == '\n' {
                apply |= TokenFlags::TAIL_NEWLINE;
            } else {
                apply |= TokenFlags::TAIL_SPACE;
            }
            cursor.advance();
        }
        proof {
            lemma_skip_while_run(s, start, cursor.pos() as int, whitespace_pred());
        }
        self.cursor = cursor;
        let n = self.tokens.len();
        if apply != 0 && n > 0 {
            let ghost old_tokens = self.tokens@;
            let flags = self.tokens[n - 1].flags;
            self.tokens[n - 1].flags = flags | apply;
            proof {
                assert(token_views(self.tokens@) =~= token_views(old_tokens).update(
                    n - 1,
                    self.tokens@[n - 1]@,
                ));
                lemma_error_indices_update(token_views(old_tokens), n - 1, self.tokens@[n - 1]@);
            }
        }
        self
    }

    fn expect_char_and_always_advance(&mut self, ch: char) -> (r: GenericConsumeResult<()>)
        requires
            old(self).wf(),
        ensures
            final(self).wf(),
            final(self).spec_source() == old(self).spec_source(),
            final(self).spec_tokens() == old(self).spec_tokens(),
            final(self).spec_pos() == (if old(self).spec_pos() < old(self).spec_text().len() {
                old(self).spec_pos() + 1
            } else {
                old(self).spec_pos() as int
            }),
            r == (if char_or_eof(old(self).spec_text(), old(self).spec_pos() as int) != ch {
                Err(
                    Some(
                        Range {
                            start: old(self).spec_pos(),
                            end: (old(self).spec_pos() + 1) as u32,
                        },
                    ),
                )
            } else {
                Ok::<(), Option<SourceSpan>>(())
            }),
    {
        let res = if self.cursor.peek() != ch {
            Err(Some(self.cursor.here()))
        } else {
            Ok(())
        };
        self.cursor.advance();
        res
    }

    /// Lexes a string literal whose opening quote is under the cursor.
    fn string_literal(&mut self) -> (r: NextTkResult)
        requires
            old(self).wf(),
            char_or_eof(old(self).spec_text(), old(self).spec_pos() as int) == '"',
        ensures
            final(self).wf(),
            final(self).spec_source() == old(self).spec_source(),
            ({
                let x = lex_string(
                    old(self).spec_text(),
                    old(self).spec_pos() as int,
                    old(self).spec_pos() + 1,
                    Seq::empty(),
                );
                &&& final(self).spec_views() == old(self).spec_views() + x.0
                &&& final(self).spec_pos() == x.1
            }),
            r == Ok::<(), usize>(()),
    {
        let index = self.cursor.index();
        self.cursor.advance();
        let mut buf = String::new();
        let ghost s = self.spec_text();
        let ghost total = lex_string(s, index as int, index + 1, Seq::empty());
        let ghost mut emitted: Seq<TokenView> = Seq::empty();
        assert(old(self).spec_views() + emitted =~= old(self).spec_views());
        loop
            invariant
                self.wf(),
                self.spec_source() == old(self).spec_source(),
                s == self.spec_text(),
                index == old(self).spec_pos(),
                total == lex_string(s, index as int, index + 1, Seq::empty()),
                index < self.spec_pos() <= s.len(),
                self.spec_views() == old(self).spec_views() + emitted,
                total.0 == emitted + lex_string(s, index as int, self.spec_pos() as int, buf@).0,
                total.1 == lex_string(s, index as int, self.spec_pos() as int, buf@).1,
            decreases s.len() - self.spec_pos(),
        {
            let sub_idx = self.cursor.index();
            let ch = self.cursor.peek();
            let ghost views0 = self.spec_views();
            if ch.is_eof() {
                self.err(
                    Errno::UnterminatedLiteral,
                    MSG_UNTERMINATED_STRING,
                    Some(Range { start: index, end: self.cursor.index() }),
                );
                assert(token_views(self.tokens@) =~= views0.push(self.tokens@.last()@));
                let ghost j = self.spec_pos() as int;
                assert(lex_string(s, index as int, j, buf@) == (
                    seq![err_tok(Errno::UnterminatedLiteral, MSG_UNTERMINATED_STRING, index as int, j)],
                    j,
                ));
                assert(self.tokens@.last()@ == err_tok(Errno::UnterminatedLiteral, MSG_UNTERMINATED_STRING, index as int, j));
                assert(self.spec_views() =~= old(self).spec_views() + total.0);
                return Ok(());
            }
            // check for end of string
            if ch == '"' {
                self.cursor.advance();
                let end = self.cursor.index();
                self.make(TokenType::StringLiteral(buf), Some(Range { start: index, end }));
                assert(token_views(self.tokens@) =~= views0.push(self.tokens@.last()@));
                assert(self.spec_views() =~= old(self).spec_views() + total.0);
                return Ok(());
            }
            // check for escaped
            if ch == '\\' {
                self.cursor.advance();
                // use spec-defined shared char sequence resolver,
                // which leaves the cursor after the literal
                match resolve_escaped_char(&mut self.cursor) {
                    Some(c) => {
                        string_push(&mut buf, c);
                    },
                    None => {
                        let end = self.cursor.index();
                        self.err(
                            Errno::IllegalEscapedChar,
                            MSG_ILLEGAL_ESCAPE_STRING,
                            Some(Range { start: sub_idx, end }),
                        );
                        assert(token_views(self.tokens@) =~= views0.push(self.tokens@.last()@));
                        proof {
                            emitted = emitted.push(self.tokens@.last()@);
                        }
                    },
                }
                continue ;
            }
            // just add character to the buffer and advance
            string_push(&mut buf, ch);
            self.cursor.advance();
        }
    }

    /// Lexes a character literal whose opening quote is under the cursor.
    fn char_literal(&mut self) -> (r: NextTkResult)
        requires
            old(self).wf(),
            char_or_eof(old(self).spec_text(), old(self).spec_pos() as int) == '\'',
        ensures
            final(self).wf(),
            final(self).spec_source() == old(self).spec_source(),
            ({
                let x = lex_char(
                    old(self).spec_text(),
                    old(self).spec_pos() as int,
                    old(self).spec_views(),
                );
                &&& final(self).spec_views() == x.0
                &&& final(self).spec_pos() == x.1
                &&& r == x.2
            }),
    {
        let ghost views0 = self.spec_views();
        let idx0 = self.cursor.index();
        proof {
            self.cursor.lemma_wf();
        }
        let c1 = self.cursor.advance();
        match c1.expect() {
            Err(_) => {
                let end = self.cursor.index();
                let e = self.err(
                    Errno::UnterminatedLiteral,
                    MSG_UNTERMINATED_CHAR,
                    Some(Range { start: idx0, end }),
                );
                assert(token_views(self.tokens@) =~= views0.push(self.tokens@.last()@));
                return Err(e);
            },
            Ok(()) => {},
        }
        let idx = self.cursor.index();
        // a plain character: step over it, then expect the closing quote
        if c1 != '\\' {
            self.cursor.advance();
            match self.expect_char_and_always_advance('\'') {
                Err(loc) => {
                    let e = self.err(Errno::IllegalCharacter, MSG_UNCLOSED_CHAR, loc);
                    assert(token_views(self.tokens@) =~= views0.push(self.tokens@.last()@));
                    return Err(e);
                },
                Ok(()) => {},
            }
            let end = self.cursor.index();
            self.make(TokenType::CharLiteral(c1), Some(Range { start: idx0, end }));
            assert(token_views(self.tokens@) =~= views0.push(self.tokens@.last()@));
            return Ok(());
        }
        // an escape: skip the backslash and resolve the character after it
        // with the spec-defined shared resolver, which leaves the cursor
        // after that character
        self.cursor.advance();
        match resolve_escaped_char(&mut self.cursor) {
            Some(ch) => {
                let end = self.cursor.index() + 1;
                self.make(TokenType::CharLiteral(ch), Some(Range { start: idx0, end }));
            },
            None => {
                let end = self.cursor.index();
                self.err(
                    Errno::IllegalEscapedChar,
                    MSG_ILLEGAL_ESCAPE_CHAR,
                    Some(Range { start: idx, end }),
                );
            },
        }
        let ghost views1 = self.spec_views();
        assert(token_views(self.tokens@) =~= views0.push(self.tokens@.last()@));
        // expect closing '
        match self.expect_char_and_always_advance('\'') {
            Err(loc) => {
                let e = self.err(Errno::IllegalCharacter, MSG_CLOSE_CHAR, loc);
                assert(token_views(self.tokens@) =~= views1.push(self.tokens@.last()@));
                return Err(e);
            },
            Ok(()) => {},
        }
        Ok(())
    }

    /// An illegal character under the cursor: it extends the last token when
    /// that is an illegal-character error (so that a run of illegal
    /// characters makes one error), and makes a new error token otherwise.
    /// Either way the character is consumed.
    fn invalid_character(&mut self) -> (r: NextTkResult)
        requires
            old(self).wf(),
        ensures
            final(self).wf(),
            final(self).spec_source() == old(self).spec_source(),
            ({
                let x = lex_invalid(
                    old(self).spec_text(),
                    old(self).spec_pos() as int,
                    old(self).spec_views(),
                );
                &&& final(self).spec_views() == x.0
                &&& final(self).spec_pos() == x.1
                &&& r == x.2
            }),
    {
        let ghost views0 = self.spec_views();
        let n = self.tokens.len();
        if n > 0 {
            let is_illegal = match &self.tokens[n - 1].ty {
                TokenType::Error(errno, _) => *errno == Errno::IllegalCharacter,
                _ => false,
            };
            if is_illegal {
                // expand last token to cover this range (avoid polluting error counts)
                let here = self.cursor.here();
                let loc = match &self.tokens[n - 1].location {
                    None => here,
                    Some(l) => l.join(here),
                };
                let ghost old_tokens = self.tokens@;
                self.tokens[n - 1].location = Some(loc);
                proof {
                    assert(token_views(self.tokens@) =~= token_views(old_tokens).update(
                        n - 1,
                        self.tokens@[n - 1]@,
                    ));
                    lemma_error_indices_update(token_views(old_tokens), n - 1, self.tokens@[n - 1]@);
                }
                self.cursor.advance();
                return Ok(());
            }
        }
        let here = self.cursor.here();
        let e = self.err(Errno::IllegalCharacter, MSG_ILLEGAL_CHARACTERS, Some(here));
        assert(token_views(self.tokens@) =~= views0.push(self.tokens@.last()@));
        self.cursor.advance();
        Err(e)
    }

    /// Parse the next token in the source, ahead from the
    /// current cursor.
    pub fn next_token(&mut self) -> (r: NextTkResult)
        requires
            old(self).wf(),
        ensures
            final(self).wf(),
            final(self).spec_source() == old(self).spec_source(),
            ({
                let x = lex_next(
                    old(self).spec_text(),
                    old(self).spec_pos() as int,
                    old(self).spec_views(),
                );
                &&& final(self).spec_views() == x.0
                &&& final(self).spec_pos() == x.1
                &&& r == x.2
            }),
            old(self).spec_pos() < old(self).spec_text().len() ==> old(self).spec_pos()
                < final(self).spec_pos(),
            final(self).spec_views().len() >= old(self).spec_views().len(),
            forall|j: int|
                0 <= j < old(self).spec_views().len() - 1 ==> #[trigger] final(self).spec_views()[j]
                    == old(self).spec_views()[j],
            r matches Err(i) ==> old(self).spec_views().len() <= i < final(self).spec_views().len()
                && final(self).spec_views()[i as int].ty is Error,
    {
        proof {
            let s = self.spec_text();
            let p = self.spec_pos() as int;
            let v = self.spec_views();
            if p < s.len() {
                lemma_lex_next_progress(s, p, v);
            }
            lemma_lex_next_keeps_prefix(s, p, v);
            if lex_next(s, p, v).0.len() <= usize::MAX {
                law_next_token_error_is_an_error_token(s, p, v);
            }
        }
        // consume whitespace
        self.consume_whitespace();
        if self.cursor.done() {
            return Ok(());
        }
        // check for comments
        match self.cursor.consume_block_comment() {
            Some(_) => {
                return Ok(());
            },
            None => {},
        }
        match self.cursor.consume_line_comment() {
            Some(_) => {
                return Ok(());
            },
            None => {},
        }
        self.next_token_after_comments()
    }

    /// The part of `next_token` after whitespace and comments.
    fn next_token_after_comments(&mut self) -> (r: NextTkResult)
        requires
            old(self).wf(),
        ensures
            final(self).wf(),
            final(self).spec_source() == old(self).spec_source(),
            ({
                let x = lex_token(
                    old(self).spec_text(),
                    old(self).spec_pos() as int,
                    old(self).spec_views(),
                );
                &&& final(self).spec_views() == x.0
                &&& final(self).spec_pos() == x.1
                &&& r == x.2
            }),
    {
        let ghost views0 = self.spec_views();
        let ghost s = self.spec_text();
        let ghost p = self.spec_pos() as int;
        proof {
            if identifier_end(s, p) is Some {
                lemma_skip_while_bounds(s, p + 1, crate::source::ident_continue_pred());
            }
        }
        // try parse special chars
        match self.symbols.read_or_restore(&mut self.cursor) {
            Some((tk, span)) => {
                let ghost rest = s.subrange(p, s.len() as int);
                let ghost k = longest_key_prefix(symbol_table(), rest, rest.len() as int);
                assert(tk == symbol_table()[rest.take(k)]);
                self.make(tk, Some(span));
                assert(token_views(self.tokens@) =~= views0.push(self.tokens@.last()@));
                return Ok(());
            },
            None => {},
        }
        // try parse identifier
        match self.cursor.consume_identifier() {
            Some(span) => {
                let word: &str = self.source.slice(Range { start: span.start, end: span.end });
                // check for keyword
                match keyword(word) {
                    Some(kw) => {
                        self.make(kw, Some(span));
                        assert(token_views(self.tokens@) =~= views0.push(self.tokens@.last()@));
                        return Ok(());
                    },
                    None => {},
                }
                // return as identifier token
                self.make(TokenType::Identifier, Some(span));
                assert(token_views(self.tokens@) =~= views0.push(self.tokens@.last()@));
                return Ok(());
            },
            None => {},
        }
        // try parse string literal
        if self.cursor.peek() == '"' {
            return self.string_literal();
        }
        // try parse char literal
        if self.cursor.peek() == '\'' {
            return self.char_literal();
        }
        // invalid character: expand or make error token
        self.invalid_character()
    }

    /// Parse the whole source string into a stream of tokens.
    pub fn tokenize(&mut self) -> (r: &mut Self)
        requires
            old(self).wf(),
        ensures
            r.wf(),
            r.spec_source() == old(self).spec_source(),
            r.spec_pos() == r.spec_text().len(),
            r.spec_views() == lex_all(
                old(self).spec_text(),
                old(self).spec_pos() as int,
                old(self).spec_views(),
            ).push(Token::spec_eof()@),
            r.spec_tokens().len() > 0,
            r.spec_tokens().last() == Token::spec_eof(),
            *final(self) == *final(r),
    {
        let ghost s = self.spec_text();
        while !self.cursor.done()
            invariant
                self.wf(),
                self.spec_source() == old(self).spec_source(),
                s == self.spec_text(),
                lex_all(s, self.spec_pos() as int, self.spec_views()) == lex_all(
                    s,
                    old(self).spec_pos() as int,
                    old(self).spec_views(),
                ),
            decreases s.len() - self.spec_pos(),
        {
            proof {
                lemma_lex_next_progress(s, self.spec_pos() as int, self.spec_views());
            }
            let _ = self.next_token();
        }
        // the token list always ends with the end-of-file token
        let ghost views = self.spec_views();
        self.make(TokenType::EOF, None);
        assert(self.spec_views() =~= views.push(Token::spec_eof()@));
        self
    }
}

pub proof fn lemma_error_indices_bounded(toks: Seq<TokenView>)
    ensures
        forall|k: int|
            0 <= k < error_indices(toks).len() ==> error_indices(toks)[k] < toks.len(),
    decreases toks.len(),
{
    if toks.len() > 0 {
        let prev = error_indices(toks.drop_last());
        lemma_error_indices_bounded(toks.drop_last());
        assert forall|k: int|
            0 <= k < error_indices(toks).len() implies error_indices(toks)[k] < toks.len() by {
            if k < prev.len() {
                assert(error_indices(toks)[k] == prev[k]);
            }
        }
    }
}

/// A step of the lexer keeps the tokens before it, except that the last of
/// them may gain whitespace flags or (as an illegal-character error) a wider
/// location; it never removes a token.
pub proof fn lemma_lex_next_keeps_prefix(s: Seq<char>, pos: int, toks: Seq<TokenView>)
    ensures
        lex_next(s, pos, toks).0.len() >= toks.len(),
        forall|j: int| 0 <= j < toks.len() - 1 ==> #[trigger] lex_next(s, pos, toks).0[j] == toks[j],
{
    let w = skip_while(s, pos, whitespace_pred());
    let t1 = flag_last(toks, ws_flags(s, pos, w));
    assert(t1.len() == toks.len());
    assert(forall|j: int| 0 <= j < toks.len() - 1 ==> #[trigger] t1[j] == toks[j]);
    let p = if w < s.len() && pair_at(s, w, '/', '*') {
        s.len() as int
    } else {
        w
    };
    let x = lex_token(s, p, t1);
    assert(x.0.len() >= t1.len());
    assert(forall|j: int| 0 <= j < t1.len() - 1 ==> #[trigger] x.0[j] == t1[j]);
}

/// A step of the lexer that fails names the error token it made: the index
/// it returns is that of an error token among the tokens after the step, at
/// or past the tokens there were before.
pub proof fn law_next_token_error_is_an_error_token(s: Seq<char>, pos: int, toks: Seq<TokenView>)
    requires
        lex_next(s, pos, toks).0.len() <= usize::MAX,
    ensures
        lex_next(s, pos, toks).2 matches Err(i) ==> toks.len() <= i < lex_next(s, pos, toks).0.len()
            && lex_next(s, pos, toks).0[i as int].ty is Error,
{
    let w = skip_while(s, pos, whitespace_pred());
    let t1 = flag_last(toks, ws_flags(s, pos, w));
    assert(t1.len() == toks.len());
    let p = if w < s.len() && pair_at(s, w, '/', '*') {
        s.len() as int
    } else {
        w
    };
    assert(lex_char(s, p, t1).2 matches Err(i) ==> lex_char(s, p, t1).0.len() <= usize::MAX ==> t1.len() <= i < lex_char(s, p, t1).0.len()
        && lex_char(s, p, t1).0[i as int].ty is Error);
    assert(lex_invalid(s, p, t1).2 matches Err(i) ==> lex_invalid(s, p, t1).0.len() <= usize::MAX ==> t1.len() <= i < lex_invalid(s, p, t1).0.len()
        && lex_invalid(s, p, t1).0[i as int].ty is Error);
}

/// `error_indices` lists exactly the positions of the error tokens, in
/// increasing order.
pub proof fn lemma_error_indices_exact(toks: Seq<TokenView>)
    requires
        toks.len() <= usize::MAX,
    ensures
        forall|k: int|
            0 <= k < error_indices(toks).len() ==> error_indices(toks)[k] < toks.len()
                && (#[trigger] toks[error_indices(toks)[k] as int]).ty is Error,
        forall|k1: int, k2: int|
            0 <= k1 < k2 < error_indices(toks).len() ==> error_indices(toks)[k1]
                < error_indices(toks)[k2],
        forall|i: int|
            0 <= i < toks.len() && (#[trigger] toks[i]).ty is Error ==> exists|k: int|
                0 <= k < error_indices(toks).len() && error_indices(toks)[k] == i,
    decreases toks.len(),
{
    if toks.len() > 0 {
        let prev_toks = toks.drop_last();
        let prev = error_indices(prev_toks);
        let ei = error_indices(toks);
        lemma_error_indices_exact(prev_toks);
        lemma_error_indices_bounded(prev_toks);
        assert(ei == (if toks.last().ty is Error {
            prev.push((toks.len() - 1) as usize)
        } else {
            prev
        }));
        assert forall|k: int|
            0 <= k < ei.len() implies ei[k] < toks.len() && (#[trigger] toks[ei[k] as int]).ty is Error by {
            if k < prev.len() {
                assert(ei[k] == prev[k]);
                assert(toks[prev[k] as int] == prev_toks[prev[k] as int]);
                assert(prev_toks[prev[k] as int].ty is Error);
            } else {
                assert(toks.last().ty is Error);
                assert(ei[k] == toks.len() - 1);
            }
        }
        assert forall|i: int|
            0 <= i < toks.len() && (#[trigger] toks[i]).ty is Error implies exists|k: int|
                0 <= k < ei.len() && ei[k] == i by {
            if i < toks.len() - 1 {
                assert(prev_toks[i] == toks[i]);
                let k = choose|k: int| 0 <= k < prev.len() && prev[k] == i;
                assert(ei[k] == i);
            } else {
                assert(toks.last().ty is Error);
                assert(ei[prev.len() as int] == i);
            }
        }
    }
}

/// One more whitespace character: the flags computed so far are updated as
/// the lexer updates them.
proof fn lemma_ws_flags_step(s: Seq<char>, start: int, p: int, apply: u32)
    requires
        start <= p < s.len(),
        apply == ws_flags(s, start, p),
    ensures
        (if s[p] == '\n' {
            apply | TokenFlags::TAIL_NEWLINE
        } else {
            apply | TokenFlags::TAIL_SPACE
        }) == ws_flags(s, start, p + 1),
{
    let a = apply;
    assert(TokenFlags::TAIL_NEWLINE | TokenFlags::TAIL_SPACE == 3u32) by (bit_vector);
    assert((a == 0 ==> a | 1 == 1u32 && a | 2 == 2u32) && (a == 1 ==> a | 1 == 1u32 && a | 2
        == 3u32) && (a == 2 ==> a | 1 == 3u32 && a | 2 == 2u32) && (a == 3 ==> a | 1 == 3u32 && a
        | 2 == 3u32)) by (bit_vector);
    if has_newline(s, start, p) {
        let k = choose|k: int| start <= k < p && s[k] == '\n';
        assert(has_newline(s, start, p + 1));
    }
    if has_other_space(s, start, p) {
        let k = choose|k: int| start <= k < p && s[k] != '\n';
        assert(has_other_space(s, start, p + 1));
    }
    if s[p] == '\n' {
        assert(has_newline(s, start, p + 1));
        if has_other_space(s, start, p + 1) {
            let k = choose|k: int| start <= k < p + 1 && s[k] != '\n';
            assert(has_other_space(s, start, p));
        }
    } else {
        assert(has_other_space(s, start, p + 1));
        if has_newline(s, start, p + 1) {
            let k = choose|k: int| start <= k < p + 1 && s[k] == '\n';
            assert(has_newline(s, start, p));
        }
    }
}

} // verus!
