use vstd::prelude::*;
use std::ops::Range;
use crate::ansi::{decimal, push_decimal, AnsiProperty, Attr, Color, FormatTarget};
use crate::chars::string_push;
use vstd::string::StringExecFns;
use crate::parser::lexer::Lexer;
use crate::parser::token::{Token, TokenType};
use crate::source::{
    char_or_eof, lemma_line_start_bounds, line_start_before, newlines_before, utf8_offset, Position,
    Segment, Source, SourceSpan,
};
use crate::lines::{find_lines, is_line_split, lemma_line_split_bounds, line_split, spec_find_lines};

verus! {

/// What a diagnostic may use of a compilation unit: its source and,
/// once lexed, its lexer.
pub struct UnitDiagnosticContext<'unit> {
    source: &'unit Source,
    lexer: Option<&'unit Lexer<'unit>>,
}

impl<'unit> UnitDiagnosticContext<'unit> {
    pub closed spec fn spec_source(&self) -> Source {
        *self.source
    }

    pub closed spec fn spec_lexer(&self) -> Option<&'unit Lexer<'unit>> {
        self.lexer
    }

    pub fn new(source: &'unit Source) -> (c: Self)
        ensures
            c.spec_source() == *source,
            c.spec_lexer() is None,
    {
        Self { source, lexer: None }
    }

    pub fn with_lexer(&mut self, lexer: &'unit Lexer) -> (r: &mut Self)
        ensures
            r.spec_source() == old(self).spec_source(),
            r.spec_lexer() == Some(lexer),
            *final(self) == *final(r),
    {
        self.lexer = Some(lexer);
        self
    }

    pub fn source(&self) -> (s: &'unit Source)
        ensures
            *s == self.spec_source(),
    {
        self.source
    }

    pub fn lexer(&self) -> (l: Option<&'unit Lexer<'unit>>)
        ensures
            l == self.spec_lexer(),
    {
        self.lexer
    }
}

/// Represents the details of a generic diagnostic which may
/// have been produced by any stage in the compiler chain.
///
/// This should be the eventual owner of all diagnostic related memory.
#[derive(PartialEq, Debug)]
pub struct DiagnosticDetails {
    pub ty: DiagnosticType,
    /// The primary location of the diagnostic
    pub primary_location: SourceSpan,
    /// The error domain and numeral
    pub errno: GenericErrno,
    pub msg: &'static str,
}

impl Clone for DiagnosticDetails {
    fn clone(&self) -> (r: Self)
        ensures
            r == *self,
    {
        DiagnosticDetails {
            ty: self.ty,
            primary_location: Range {
                start: self.primary_location.start,
                end: self.primary_location.end,
            },
            errno: self.errno,
            msg: self.msg,
        }
    }
}

#[derive(Clone, PartialEq, Copy, Debug)]
pub enum DiagnosticType {
    Error,
    Warn,
    Note,
}

#[derive(Clone, PartialEq, Copy, Debug)]
pub struct GenericErrno {
    pub domain: &'static str,  // T -- Tokenization, P - Parser, etc...
    pub numeral: u32,  // The actual error code
}

/// The default color of source text: `0xDDDDDD`.
pub open spec fn spec_default_true_color() -> Color {
    Color::True(0xDD, 0xDD, 0xDD)
}

/// The default color of source text: `0xDDDDDD`.
pub fn default_true_color() -> (c: Color)
    ensures
        c == spec_default_true_color(),
{
    Color::lit(0xDDDDDD)
}

/// The style in which a character of a token is shown.
pub open spec fn spec_char_styles_for_token(ty: TokenType) -> (Color, Attr) {
    if ty.spec_is_keyword() {
        (Color::True(0x9d, 0x39, 0xcc), Attr::Reset)
    } else {
        match ty {
            TokenType::Error(_, _) => (Color::Red, Attr::Faint),
            TokenType::BoolLiteral(_) => (Color::True(0xb6, 0x10, 0xe8), Attr::Italic),
            TokenType::CharLiteral(_) => (Color::True(0x7c, 0xf0, 0x6e), Attr::Reset),
            TokenType::StringLiteral(_) => (Color::True(0x61, 0xdb, 0x53), Attr::Reset),
            TokenType::NumericLiteral(_, _) => (Color::True(0xd1, 0x93, 0x43), Attr::Reset),
            _ => (spec_default_true_color(), Attr::Reset),
        }
    }
}

/// How the tokens are styled in a source window: the keywords `use`, `let`,
/// `fn`, `Self`, `self`, `public` and `mut` in purple (`0x9d39cc`), errors
/// faint red, booleans italic `0xb610e8`, character literals `0x7cf06e`,
/// string literals `0x61db53`, numbers `0xd19343`, and every other token in
/// the default text color `0xDDDDDD`.
pub proof fn law_token_styles(ty: TokenType)
    ensures
        (ty is Use || ty is Let || ty is Fn || ty is USelf || ty is LSelf || ty is Public
            || ty is Mut) ==> spec_char_styles_for_token(ty) == (
            Color::True(0x9d, 0x39, 0xcc),
            Attr::Reset,
        ),
        ty is Error ==> spec_char_styles_for_token(ty) == (Color::Red, Attr::Faint),
        ty is BoolLiteral ==> spec_char_styles_for_token(ty) == (
            Color::True(0xb6, 0x10, 0xe8),
            Attr::Italic,
        ),
        ty is CharLiteral ==> spec_char_styles_for_token(ty) == (
            Color::True(0x7c, 0xf0, 0x6e),
            Attr::Reset,
        ),
        ty is StringLiteral ==> spec_char_styles_for_token(ty) == (
            Color::True(0x61, 0xdb, 0x53),
            Attr::Reset,
        ),
        ty is NumericLiteral ==> spec_char_styles_for_token(ty) == (
            Color::True(0xd1, 0x93, 0x43),
            Attr::Reset,
        ),
        !(ty is Use || ty is Let || ty is Fn || ty is USelf || ty is LSelf || ty is Public
            || ty is Mut || ty is Error || ty is BoolLiteral || ty is CharLiteral
            || ty is StringLiteral || ty is NumericLiteral) ==> spec_char_styles_for_token(ty) == (
            Color::True(0xDD, 0xDD, 0xDD),
            Attr::Reset,
        ),
{
}

/// Errors are red and marked `■ error: `, warnings yellow and marked
/// `▲  warn: `, notes blue and marked `◆  note: `.
pub proof fn law_diagnostic_presentation()
    ensures
        DiagnosticType::Error.spec_color() == Color::Red,
        DiagnosticType::Warn.spec_color() == Color::Yellow,
        DiagnosticType::Note.spec_color() == Color::Blue,
        DiagnosticType::Error.spec_icon() == '■',
        DiagnosticType::Warn.spec_icon() == '▲',
        DiagnosticType::Note.spec_icon() == '◆',
        DiagnosticType::Error.spec_prefix()@ == seq!['e', 'r', 'r', 'o', 'r', ':', ' '],
        DiagnosticType::Warn.spec_prefix()@ == seq![' ', 'w', 'a', 'r', 'n', ':', ' '],
        DiagnosticType::Note.spec_prefix()@ == seq![' ', 'n', 'o', 't', 'e', ':', ' '],
{
    reveal_strlit("error: ");
    reveal_strlit(" warn: ");
    reveal_strlit(" note: ");
    assert("error: "@ =~= seq!['e', 'r', 'r', 'o', 'r', ':', ' ']);
    assert(" warn: "@ =~= seq![' ', 'w', 'a', 'r', 'n', ':', ' ']);
    assert(" note: "@ =~= seq![' ', 'n', 'o', 't', 'e', ':', ' ']);
}

pub fn char_styles_for_token(tk: &Token) -> (r: (Color, Attr))
    ensures
        r == spec_char_styles_for_token(tk.ty),
{
    if tk.ty.is_keyword() {
        return (Color::lit(0x9d39cc), Attr::Reset);
    }
    match tk.ty {
        TokenType::Error(_, _) => (Color::Red, Attr::Faint),
        TokenType::BoolLiteral(_) => (Color::lit(0xb610e8), Attr::Italic),
        TokenType::CharLiteral(_) => (Color::lit(0x7cf06e), Attr::Reset),
        TokenType::StringLiteral(_) => (Color::lit(0x61db53), Attr::Reset),
        TokenType::NumericLiteral(_, _) => (Color::lit(0xd19343), Attr::Reset),
        _ => (default_true_color(), Attr::Reset),
    }
}

impl DiagnosticType {
    pub open spec fn spec_color(&self) -> Color {
        match self {
            DiagnosticType::Error => Color::Red,
            DiagnosticType::Warn => Color::Yellow,
            DiagnosticType::Note => Color::Blue,
        }
    }

    pub fn color(&self) -> (c: Color)
        ensures
            c == self.spec_color(),
    {
        match self {
            DiagnosticType::Error => Color::Red,
            DiagnosticType::Warn => Color::Yellow,
            DiagnosticType::Note => Color::Blue,
        }
    }

    pub open spec fn spec_icon(&self) -> char {
        match self {
            DiagnosticType::Error => '■',
            DiagnosticType::Warn => '▲',
            DiagnosticType::Note => '◆',
        }
    }

    pub fn icon(&self) -> (c: char)
        ensures
            c == self.spec_icon(),
    {
        match self {
            DiagnosticType::Error => '■',
            DiagnosticType::Warn => '▲',
            DiagnosticType::Note => '◆',
        }
    }

    pub open spec fn spec_prefix(&self) -> &'static str {
        match self {
            DiagnosticType::Error => "error: ",
            DiagnosticType::Warn => " warn: ",
            DiagnosticType::Note => " note: ",
        }
    }

    pub fn prefix(&self) -> (s: &'static str)
        ensures
            s == self.spec_prefix(),
    {
        match self {
            DiagnosticType::Error => "error: ",
            DiagnosticType::Warn => " warn: ",
            DiagnosticType::Note => " note: ",
        }
    }
}

/// How many columns the source window reaches left and right of the
/// primary location.
pub const HORIZONTAL_WINDOW_EXPANSION: u32 = 25;

/// The narrowest frame drawn around a source window.
pub const MIN_RECT_WIDTH: u32 = 85;

/// The first column of the window around columns `a` and `b`.
pub open spec fn spec_left_col(a: u32, b: u32) -> u32 {
    let lo = if a < b {
        a
    } else {
        b
    };
    if lo >= HORIZONTAL_WINDOW_EXPANSION {
        (lo - HORIZONTAL_WINDOW_EXPANSION) as u32
    } else {
        0
    }
}

/// The column bound on the right of the window around columns `a` and `b`.
pub open spec fn spec_right_col(a: u32, b: u32) -> u32 {
    let hi = if a > b {
        a
    } else {
        b
    };
    (hi + HORIZONTAL_WINDOW_EXPANSION) as u32
}

/// The width of the frame drawn around the window from `left` to `right`.
pub open spec fn spec_rect_width(left: u32, right: u32) -> nat {
    let w = right - left + HORIZONTAL_WINDOW_EXPANSION;
    if w > MIN_RECT_WIDTH {
        w as nat
    } else {
        MIN_RECT_WIDTH as nat
    }
}

/// The window around a segment: its first column, its right column bound
/// and the width of the frame drawn around it.
pub fn window_columns(segment: &Segment) -> (r: (u32, u32, usize))
    requires
        segment.spec_start().spec_column() + 2 * HORIZONTAL_WINDOW_EXPANSION <= u32::MAX,
        segment.spec_end().spec_column() + 2 * HORIZONTAL_WINDOW_EXPANSION <= u32::MAX,
    ensures
        r.0 == spec_left_col(segment.spec_start().spec_column(), segment.spec_end().spec_column()),
        r.1 == spec_right_col(segment.spec_start().spec_column(), segment.spec_end().spec_column()),
        r.2 == spec_rect_width(r.0, r.1),
{
    let a = segment.start_position().column();
    let b = segment.end_position().column();
    let lo = if a < b {
        a
    } else {
        b
    };
    let hi = if a > b {
        a
    } else {
        b
    };
    let left_col = if lo >= HORIZONTAL_WINDOW_EXPANSION {
        lo - HORIZONTAL_WINDOW_EXPANSION
    } else {
        0
    };
    let right_col = hi + HORIZONTAL_WINDOW_EXPANSION;
    let w = (right_col - left_col) + HORIZONTAL_WINDOW_EXPANSION;
    let rect_width = if w > MIN_RECT_WIDTH {
        w
    } else {
        MIN_RECT_WIDTH
    };
    (left_col, right_col, rect_width as usize)
}

/// How far column `col` lies outside the columns from `span.start` to
/// `span.end` (zero between them, both included).
pub open spec fn spec_column_distance(span: Range<u32>, col: int) -> int {
    if col < span.start {
        span.start - col
    } else if col > span.end {
        col - span.end
    } else {
        0
    }
}

/// How far column `col` lies outside the columns from `span.start` to
/// `span.end` (zero between them, both included).
pub fn column_distance(span: &Range<u32>, col: u32) -> (d: u32)
    ensures
        d == spec_column_distance(*span, col as int),
{
    if col < span.start {
        span.start - col
    } else if col > span.end {
        col - span.end
    } else {
        0
    }
}

/// Searching the tokens from index `k` on: the index of the first token
/// with a location that ends after character `c` (the number of tokens when
/// there is none).
pub open spec fn token_search(tokens: Seq<Token>, k: int, c: int) -> int
    decreases tokens.len() - k,
{
    if 0 <= k < tokens.len() {
        match tokens[k].location {
            Some(span) => if c < span.end {
                k
            } else {
                token_search(tokens, k + 1, c)
            },
            None => token_search(tokens, k + 1, c),
        }
    } else {
        k
    }
}

/// The token that character `c` belongs to: the first token with a
/// location that ends after `c`, when that location starts at or before `c`.
pub open spec fn token_for_char(tokens: Seq<Token>, c: int) -> Option<int> {
    let k = token_search(tokens, 0, c);
    if 0 <= k < tokens.len() && tokens[k].location->0.start <= c {
        Some(k)
    } else {
        None
    }
}

proof fn lemma_token_search_bounds(tokens: Seq<Token>, k: int, c: int)
    requires
        0 <= k,
    ensures
        k <= token_search(tokens, k, c),
        token_search(tokens, k, c) <= tokens.len() || token_search(tokens, k, c) == k,
        token_search(tokens, k, c) < tokens.len() ==> (tokens[token_search(
            tokens,
            k,
            c,
        )].location matches Some(span) && c < span.end),
    decreases tokens.len() - k,
{
    if 0 <= k < tokens.len() {
        lemma_token_search_bounds(tokens, k + 1, c);
    }
}

/// Resuming a search for a later character from where the search for an
/// earlier one stopped finds the same token as searching from `k`.
proof fn lemma_token_search_resume(tokens: Seq<Token>, k: int, c1: int, c2: int)
    requires
        0 <= k,
        c1 <= c2,
    ensures
        token_search(tokens, token_search(tokens, k, c1), c2) == token_search(tokens, k, c2),
    decreases tokens.len() - k,
{
    if 0 <= k < tokens.len() {
        match tokens[k].location {
            Some(span) => if c1 < span.end {
            } else {
                lemma_token_search_resume(tokens, k + 1, c1, c2);
            },
            None => {
                lemma_token_search_resume(tokens, k + 1, c1, c2);
            },
        }
    }
}

/// The tokens of the context's lexer, if it has one.
pub open spec fn context_tokens(ctx: UnitDiagnosticContext) -> Option<Seq<Token>> {
    match ctx.spec_lexer() {
        Some(l) => Some(l.spec_tokens()),
        None => None,
    }
}

/// The style of character `c` in a diagnostic's source window: bold in the
/// diagnostic's color inside the primary location, else the style of the
/// token it belongs to, else the default.
pub open spec fn spec_char_style(
    tokens: Option<Seq<Token>>,
    det: DiagnosticDetails,
    c: int,
) -> (Color, Attr) {
    if det.primary_location.start <= c < det.primary_location.end {
        (det.ty.spec_color(), Attr::Bold)
    } else {
        match tokens {
            Some(t) => match token_for_char(t, c) {
                Some(k) => spec_char_styles_for_token(t[k].ty),
                None => (spec_default_true_color(), Attr::Reset),
            },
            None => (spec_default_true_color(), Attr::Reset),
        }
    }
}

/// A character of the source window with its style, and how far its column
/// lies outside the primary location's columns (the further, the darker it
/// is drawn).
#[derive(Debug)]
pub struct StyledChar {
    pub ch: char,
    pub color: Color,
    pub attr: Attr,
    pub distance: u32,
}

/// The characters of a line shown in the window: the line without its last
/// character, from column `left` up to column `right` (excluded).
pub open spec fn spec_text_span(raw: SourceSpan, left: u32, right: u32) -> Range<int> {
    let len = raw.end - raw.start - 1;
    let rel_end = if len - 1 < right {
        len - 1
    } else {
        right as int
    };
    if left < rel_end {
        Range { start: raw.start + left, end: raw.start + rel_end }
    } else {
        Range { start: raw.start + left, end: raw.start + left }
    }
}

/// The column of character index `x` in `text`: its distance from the
/// start of its line.
pub open spec fn spec_column_of(text: Seq<char>, x: int) -> u32 {
    (x - line_start_before(text, x)) as u32
}

/// The columns of the start and the end of a span.
pub open spec fn spec_column_span(text: Seq<char>, span: SourceSpan) -> Range<u32> {
    Range { start: spec_column_of(text, span.start as int), end: spec_column_of(text, span.end as int) }
}

/// The styled characters that a line of the window shows; `cols` are the
/// columns of the diagnostic's primary location.
pub open spec fn spec_render_line(
    text: Seq<char>,
    tokens: Option<Seq<Token>>,
    det: DiagnosticDetails,
    cols: Range<u32>,
    raw: SourceSpan,
    left: u32,
    right: u32,
) -> Seq<StyledChar> {
    let ts = spec_text_span(raw, left, right);
    Seq::new(
        (ts.end - ts.start) as nat,
        |j: int|
            StyledChar {
                ch: char_or_eof(text, ts.start + j),
                color: spec_char_style(tokens, det, ts.start + j).0,
                attr: spec_char_style(tokens, det, ts.start + j).1,
                distance: spec_column_distance(cols, ts.start + j - raw.start) as u32,
            },
    )
}

/// The styled characters that the line `raw` (a span that ends with its
/// newline and holds at least one other character) shows in the window
/// from column `left` to column `right`, with the distance of each
/// character's column from the columns `cols` of the primary location.
pub fn render_line(
    ctx: &UnitDiagnosticContext,
    det: &DiagnosticDetails,
    cols: &Range<u32>,
    raw: SourceSpan,
    left: u32,
    right: u32,
) -> (r: Vec<StyledChar>)
    requires
        ctx.spec_source().wf(),
        raw.start + 2 <= raw.end <= ctx.spec_source()@.len(),
    ensures
        r@ == spec_render_line(ctx.spec_source()@, context_tokens(*ctx), *det, *cols, raw, left, right),
{
    let source = ctx.source();
    let line_start = raw.start;
    let len = raw.end - 1 - raw.start;
    let rel_end = if len - 1 < right {
        len - 1
    } else {
        right
    };
    let mut out: Vec<StyledChar> = Vec::new();
    if left >= rel_end {
        assert(out@ =~= spec_render_line(ctx.spec_source()@, context_tokens(*ctx), *det, *cols, raw, left, right));
        return out;
    }
    let start = line_start + left;
    let end = line_start + rel_end;
    let ghost text = ctx.spec_source()@;
    let ghost toks = context_tokens(*ctx);
    let fg = det.ty.color();
    let mut current_token_index: usize = 0;
    let mut c = start;
    while c < end
        invariant
            source.wf(),
            *source == ctx.spec_source(),
            text == source@,
            toks == context_tokens(*ctx),
            fg == det.ty.spec_color(),
            start <= c <= end,
            end < raw.end <= text.len(),
            start == raw.start + left,
            end == raw.start + rel_end,
            spec_text_span(raw, left, right) == (Range { start: start as int, end: end as int }),
            out@.len() == c - start,
            forall|j: int|
                0 <= j < out@.len() ==> #[trigger] out@[j] == spec_render_line(
                    text,
                    toks,
                    *det,
                    *cols,
                    raw,
                    left,
                    right,
                )[j],
            toks matches Some(t) ==> current_token_index <= t.len(),
            toks matches Some(t) ==> forall|c2: int|
                c2 >= c ==> #[trigger] token_search(t, current_token_index as int, c2)
                    == token_search(t, 0, c2),
            line_start == raw.start,
        decreases end - c,
    {
        let ch = source.char_at(c);
        // find the token that the current character belongs to
        let mut current: Option<&Token> = None;
        match ctx.lexer() {
            Some(lexer) => {
                let tokens = lexer.tokens();
                let ghost t = tokens@;
                let ghost idx0 = current_token_index;
                assert(token_search(t, idx0 as int, c as int) == token_search(t, 0, c as int));
                while current_token_index < tokens.len() && !ends_after(
                    &tokens[current_token_index],
                    c,
                )
                    invariant
                        t == tokens@,
                        idx0 <= current_token_index <= t.len(),
                        token_search(t, current_token_index as int, c as int) == token_search(
                            t,
                            idx0 as int,
                            c as int,
                        ),
                    decreases t.len() - current_token_index,
                {
                    current_token_index = current_token_index + 1;
                }
                assert(current_token_index as int == token_search(t, 0, c as int));
                if current_token_index < tokens.len() {
                    let tk = &tokens[current_token_index];
                    match &tk.location {
                        Some(span) => {
                            if c >= span.start {
                                current = Some(tk);
                            }
                        },
                        None => {},
                    }
                }
                proof {
                    assert forall|c2: int| c2 >= c + 1 implies #[trigger] token_search(
                        t,
                        current_token_index as int,
                        c2,
                    ) == token_search(t, 0, c2) by {
                        lemma_token_search_resume(t, 0, c as int, c2);
                    }
                }
            },
            None => {},
        }
        let (color, attr) = if det.primary_location.start <= c && c < det.primary_location.end {
            (fg, Attr::Bold)
        } else {
            match current {
                Some(tk) => char_styles_for_token(tk),
                None => (default_true_color(), Attr::Reset),
            }
        };
        let distance = column_distance(cols, c - line_start);
        assert(color == spec_char_style(toks, *det, c as int).0);
        assert(attr == spec_char_style(toks, *det, c as int).1);
        let ghost before = out@;
        out.push(StyledChar { ch, color, attr, distance });
        proof {
            assert forall|j: int| 0 <= j < out@.len() implies #[trigger] out@[j] == spec_render_line(
                text,
                toks,
                *det,
                *cols,
                raw,
                left,
                right,
            )[j] by {
                if j < before.len() {
                    assert(out@[j] == before[j]);
                }
            }
        }
        c = c + 1;
    }
    assert(out@ =~= spec_render_line(ctx.spec_source()@, context_tokens(*ctx), *det, *cols, raw, left, right));
    out
}

/// The token has a location that ends after character `c`.
fn ends_after(tk: &Token, c: u32) -> (b: bool)
    ensures
        b == (tk.location matches Some(span) && c < span.end),
{
    match &tk.location {
        Some(span) => c < span.end,
        None => false,
    }
}

/// A line of the source window: its number (counted from one) and the
/// characters it shows; a line with nothing but its newline shows none.
#[derive(Debug)]
pub struct WindowLine {
    pub number: usize,
    pub cells: Option<Vec<StyledChar>>,
}

/// What the source window of a diagnostic shows: the number of its first
/// line, the width of its frame, its lines, and the columns to underline
/// when at least one line shows characters.
#[derive(Debug)]
pub struct DiagnosticWindow {
    pub first_line_number: usize,
    pub rect_width: usize,
    pub lines: Vec<WindowLine>,
    pub underline: Option<Range<u32>>,
}

/// The line `raw` shows characters in the window.
pub open spec fn shows_text(raw: SourceSpan) -> bool {
    raw.end >= raw.start + 2
}

/// The window line for line `idx` of the split `lines`.
pub open spec fn window_line_matches(
    w: WindowLine,
    text: Seq<char>,
    tokens: Option<Seq<Token>>,
    det: DiagnosticDetails,
    lines: Seq<SourceSpan>,
    idx: int,
    left: u32,
    right: u32,
) -> bool {
    &&& w.number == idx + 1
    &&& (w.cells is Some) == shows_text(lines[idx])
    &&& w.cells matches Some(v) ==> v@ == spec_render_line(
        text,
        tokens,
        det,
        spec_column_span(text, det.primary_location),
        lines[idx],
        left,
        right,
    )
}

/// The window of a diagnostic, given how its source splits into `lines`.
pub open spec fn window_matches(
    r: DiagnosticWindow,
    text: Seq<char>,
    tokens: Option<Seq<Token>>,
    det: DiagnosticDetails,
    lines: Seq<SourceSpan>,
) -> bool {
    let range = spec_find_lines(lines, det.primary_location);
    let cols = spec_column_span(text, det.primary_location);
    let left = spec_left_col(cols.start, cols.end);
    let right = spec_right_col(cols.start, cols.end);
    &&& r.first_line_number == range.start + 1
    &&& r.rect_width == spec_rect_width(left, right)
    &&& r.lines@.len() == range.end - range.start
    &&& forall|k: int|
        0 <= k < r.lines@.len() ==> window_line_matches(
            #[trigger] r.lines@[k],
            text,
            tokens,
            det,
            lines,
            range.start + k,
            left,
            right,
        )
    &&& r.underline == (if exists|i: int| range.start <= i < range.end && #[trigger] shows_text(lines[i]) {
        Some(cols)
    } else {
        None
    })
}

/// The source window of a diagnostic: the lines its primary location
/// touches, each shown from some columns before the location to some
/// columns after it, every character with its style.
pub fn diagnostic_window(ctx: &UnitDiagnosticContext, det: &DiagnosticDetails) -> (r:
    DiagnosticWindow)
    requires
        ctx.spec_source().wf(),
        det.primary_location.start <= ctx.spec_source()@.len(),
        det.primary_location.end <= ctx.spec_source()@.len(),
        ctx.spec_source()@.len() + 2 * HORIZONTAL_WINDOW_EXPANSION <= u32::MAX,
    ensures
        window_matches(
            r,
            ctx.spec_source()@,
            context_tokens(*ctx),
            *det,
            line_split(ctx.spec_source()@),
        ),
{
    let source = ctx.source();
    let segment = source.as_segment(Range {
        start: det.primary_location.start,
        end: det.primary_location.end,
    });
    let all_lines = source.lines();
    let line_range = find_lines(&all_lines, Range {
        start: det.primary_location.start,
        end: det.primary_location.end,
    });
    proof {
        let ps = det.primary_location.start;
        let pe = det.primary_location.end;
        lemma_line_start_bounds(source@, ps as int);
        lemma_line_start_bounds(source@, pe as int);
        Position::lemma_spec_new(
            ps,
            utf8_offset(source@, ps as int) as usize,
            newlines_before(source@, ps as int) as u32,
            (ps - line_start_before(source@, ps as int)) as u32,
        );
        Position::lemma_spec_new(
            pe,
            utf8_offset(source@, pe as int) as usize,
            newlines_before(source@, pe as int) as u32,
            (pe - line_start_before(source@, pe as int)) as u32,
        );
        lemma_line_split_bounds(source@, all_lines@);
    }
    let (left_col, right_col, rect_width) = window_columns(&segment);
    // the columns of the primary location
    let cols = Range {
        start: segment.start_position().column(),
        end: segment.end_position().column(),
    };
    let ghost text = source@;
    let ghost toks = context_tokens(*ctx);
    let ghost lines = all_lines@;
    let mut out: Vec<WindowLine> = Vec::new();
    let mut underline: Option<Range<u32>> = None;
    let mut idx = line_range.start;
    while idx < line_range.end
        invariant
            source.wf(),
            *source == ctx.spec_source(),
            text == source@,
            toks == context_tokens(*ctx),
            lines == all_lines@,
            is_line_split(text, lines),
            forall|k: int|
                #![trigger lines[k]]
                0 <= k < lines.len() ==> lines[k].start <= lines[k].end <= text.len(),
            lines.len() <= text.len() + 1,
            line_range.start <= idx <= line_range.end <= lines.len(),
            cols == spec_column_span(text, det.primary_location),
            left_col == spec_left_col(cols.start, cols.end),
            right_col == spec_right_col(cols.start, cols.end),
            out@.len() == idx - line_range.start,
            forall|k: int|
                0 <= k < out@.len() ==> window_line_matches(
                    #[trigger] out@[k],
                    text,
                    toks,
                    *det,
                    lines,
                    line_range.start + k,
                    left_col,
                    right_col,
                ),
            underline == (if exists|i: int|
                line_range.start <= i < idx && #[trigger] shows_text(lines[i]) {
                Some(cols)
            } else {
                None
            }),
        decreases line_range.end - idx,
    {
        let raw = Range { start: all_lines[idx].start, end: all_lines[idx].end };
        let ghost before = out@;
        let ghost had = underline;
        proof {
            assert(raw.end <= text.len());
        }
        if raw.end >= 2 && raw.start <= raw.end - 2 {
            let cells = render_line(ctx, det, &cols, raw, left_col, right_col);
            out.push(WindowLine { number: idx + 1, cells: Some(cells) });
            underline = Some(Range { start: cols.start, end: cols.end });
            assert(shows_text(lines[idx as int]));
        } else {
            out.push(WindowLine { number: idx + 1, cells: None });
        }
        proof {
            assert forall|k: int|
                0 <= k < out@.len() implies window_line_matches(
                    #[trigger] out@[k],
                    text,
                    toks,
                    *det,
                    lines,
                    line_range.start + k,
                    left_col,
                    right_col,
                ) by {
                if k < before.len() {
                    assert(out@[k] == before[k]);
                }
            }
        }
        idx = idx + 1;
    }
    let w = DiagnosticWindow {
        first_line_number: line_range.start + 1,
        rect_width,
        lines: out,
        underline,
    };
    assert(window_matches(w, text, toks, *det, lines));
    w
}

/// `s` with zeros put in front up to `width` characters.
pub open spec fn zero_padded(s: Seq<char>, width: nat) -> Seq<char> {
    if s.len() < width {
        Seq::new((width - s.len()) as nat, |i: int| '0') + s
    } else {
        s
    }
}

/// The line that ends a diagnostic: its icon and prefix, its message, and
/// its error domain and number (the number in at least four digits), in the
/// diagnostic's color.
pub open spec fn spec_summary_line(det: DiagnosticDetails) -> Seq<char> {
    let fg = det.ty.spec_color().spec_ansi(FormatTarget::Plain);
    "\x1B[1m"@ + fg + seq![det.ty.spec_icon()] + " "@ + det.ty.spec_prefix()@ + "\x1B[22m"@ + fg
        + det.msg@ + "\x1B[90m • \x1B[1m"@ + fg + det.errno.domain@ + zero_padded(
        decimal(det.errno.numeral as nat),
        4,
    ) + "\x1B[0m"@
}

/// The line that ends a diagnostic: its icon and prefix, its message, and
/// its error domain and number (the number in at least four digits), in the
/// diagnostic's color.
pub fn summary_line(det: &DiagnosticDetails) -> (s: String)
    ensures
        s@ == spec_summary_line(*det),
{
    let fg = det.ty.color();
    let mut out = String::new();
    out.append("\x1B[1m");
    fg.print_ansi(FormatTarget::Plain, &mut out);
    string_push(&mut out, det.ty.icon());
    out.append(" ");
    out.append(det.ty.prefix());
    out.append("\x1B[22m");
    fg.print_ansi(FormatTarget::Plain, &mut out);
    out.append(det.msg);
    out.append("\x1B[90m • \x1B[1m");
    fg.print_ansi(FormatTarget::Plain, &mut out);
    out.append(det.errno.domain);
    let mut digits = String::new();
    push_decimal(&mut digits, det.errno.numeral);
    let ghost d = decimal(det.errno.numeral as nat);
    assert(digits@ =~= d);
    let len = digits.as_str().unicode_len();
    let ghost before = out@;
    let mut k = len;
    while k < 4
        invariant
            len == d.len(),
            len <= k,
            k <= 4 || k == len,
            out@ == before + Seq::new((k - len) as nat, |i: int| '0'),
        decreases 4 - k,
    {
        string_push(&mut out, '0');
        k = k + 1;
        assert(out@ =~= before + Seq::new((k - len) as nat, |i: int| '0'));
    }
    out.append(digits.as_str());
    out.append("\x1B[0m");
    assert(before + Seq::new((k - len) as nat, |i: int| '0') + d =~= before + zero_padded(d, 4));
    assert(out@ =~= spec_summary_line(*det));
    out
}

} // verus!
