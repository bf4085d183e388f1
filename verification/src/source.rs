use vstd::prelude::*;
use vstd::utf8::*;
use vstd::string::*;
use vstd::std_specs::iter::IteratorSpec;
use std::str::Chars;
use std::ops::Range;
use crate::parse::CharIterator;
use crate::ansi::{decimal, push_decimal};
use vstd::string::StringExecFns;
use crate::chars::{is_alphabetic, is_alphanumeric, is_whitespace, spec_is_alphabetic, spec_is_alphanumeric, spec_is_whitespace};

verus! {

broadcast use vstd::string::group_string_axioms;

/// End-of-file sentinel value, provides just slightly more ergonomic parsing
pub const EOF: char = '\0';

/// The canonical type for char indices into a source string
pub type SourceIndex = u32;

/// The canonical type for spans of char indices
pub type SourceSpan = Range<SourceIndex>;

// ---------------------------------------------------------------------------
// UTF-8 offsets
// ---------------------------------------------------------------------------

/// The number of bytes in the UTF-8 encoding of the first `i` characters of `s`.
pub open spec fn utf8_offset(s: Seq<char>, i: int) -> nat {
    encode_utf8(s.take(i)).len()
}

/// The character at `i`, or `EOF` past the end.
pub open spec fn char_or_eof(s: Seq<char>, i: int) -> char {
    if 0 <= i < s.len() {
        s[i]
    } else {
        EOF
    }
}

/// The character at `i`, if any.
pub open spec fn char_opt(s: Seq<char>, i: int) -> Option<char> {
    if 0 <= i < s.len() {
        Some(s[i])
    } else {
        None
    }
}

pub proof fn lemma_encode_utf8_concat(a: Seq<char>, b: Seq<char>)
    ensures
        encode_utf8(a + b) == encode_utf8(a) + encode_utf8(b),
    decreases a.len(),
{
    if a.len() == 0 {
        assert(a + b =~= b);
        assert(encode_utf8(a + b) =~= encode_utf8(a) + encode_utf8(b));
    } else {
        lemma_encode_utf8_concat(a.drop_first(), b);
        assert((a + b).drop_first() =~= a.drop_first() + b);
        assert(encode_utf8(a + b) =~= encode_utf8(a) + encode_utf8(b));
    }
}

pub proof fn lemma_utf8_offset_step(s: Seq<char>, i: int)
    requires
        0 <= i < s.len(),
    ensures
        utf8_offset(s, i + 1) == utf8_offset(s, i) + encode_scalar(s[i] as u32).len(),
{
    reveal_with_fuel(encode_utf8, 2);
    lemma_encode_utf8_concat(s.take(i), seq![s[i]]);
    assert(s.take(i + 1) =~= s.take(i) + seq![s[i]]);
    assert(encode_utf8(seq![s[i]]) =~= encode_scalar(s[i] as u32));
}

pub proof fn lemma_utf8_offset_mono(s: Seq<char>, i: int, j: int)
    requires
        0 <= i <= j <= s.len(),
    ensures
        utf8_offset(s, i) + (j - i) <= utf8_offset(s, j),
    decreases j - i,
{
    if i < j {
        lemma_utf8_offset_mono(s, i, j - 1);
        lemma_utf8_offset_step(s, j - 1);
    }
}

/// The offset of character `i` is where its encoding starts in the UTF-8
/// text: the bytes from there up to the next offset encode exactly that
/// character, the offsets increase strictly, and the offset past the last
/// character is the length of the text in bytes. (This is the offset that
/// `str::char_indices` gives with character `i`.)
pub proof fn law_char_offsets(s: Seq<char>, i: int)
    requires
        0 <= i < s.len(),
    ensures
        utf8_offset(s, i) < utf8_offset(s, i + 1),
        encode_utf8(s).subrange(utf8_offset(s, i) as int, utf8_offset(s, i + 1) as int)
            == encode_scalar(s[i] as u32),
        utf8_offset(s, s.len() as int) == encode_utf8(s).len(),
{
    lemma_utf8_offset_mono(s, i, i + 1);
    lemma_utf8_offset_step(s, i);
    assert(s.take(s.len() as int) =~= s);
    let rest = s.skip(i + 1);
    assert(s =~= s.take(i + 1) + rest);
    lemma_encode_utf8_concat(s.take(i + 1), rest);
    assert(s.take(i + 1) =~= s.take(i) + seq![s[i]]);
    lemma_encode_utf8_concat(s.take(i), seq![s[i]]);
    reveal_with_fuel(encode_utf8, 2);
    assert(encode_utf8(seq![s[i]]) =~= encode_scalar(s[i] as u32));
    assert(encode_utf8(s).subrange(utf8_offset(s, i) as int, utf8_offset(s, i + 1) as int)
        =~= encode_scalar(s[i] as u32));
}

/// Number of bytes that `c` takes in UTF-8.
fn utf8_width(c: char) -> (w: u32)
    ensures
        w as nat == encode_scalar(c as u32).len(),
        1 <= w <= 4,
{
    let u = c as u32;
    proof {
        char_is_scalar(c);
    }
    if u <= 0x7F {
        1
    } else if u <= 0x7FF {
        2
    } else if u <= 0xFFFF {
        3
    } else {
        4
    }
}

/// Collects the characters of a string slice.
pub fn chars_of(s: &str) -> (v: Vec<char>)
    ensures
        v@ == s@,
{
    let mut it: Chars = s.chars();
    let mut v: Vec<char> = Vec::new();
    loop
        invariant
            v@ + it.remaining() == s@,
            it.obeys_prophetic_iter_laws(),
            it.decrease() is Some,
        ensures
            v@ == s@,
        decreases it.decrease()->0,
    {
        match it.next() {
            Some(c) => {
                v.push(c);
            },
            None => {
                break ;
            },
        }
    }
    v
}

/// The number of line feeds among the first `n` characters of `s`.
pub open spec fn newlines_before(s: Seq<char>, n: int) -> nat
    decreases n,
{
    if n <= 0 {
        0
    } else if s[n - 1] == '\n' {
        newlines_before(s, n - 1) + 1
    } else {
        newlines_before(s, n - 1)
    }
}

/// The index where the line holding index `n` starts: just after the last
/// line feed among the first `n` characters of `s`, or 0 when there is none.
pub open spec fn line_start_before(s: Seq<char>, n: int) -> int
    decreases n,
{
    if n <= 0 {
        0
    } else if s[n - 1] == '\n' {
        n
    } else {
        line_start_before(s, n - 1)
    }
}

/// A line starts at or before the index it holds, and there are no more
/// line feeds before an index than characters.
pub proof fn lemma_line_start_bounds(s: Seq<char>, n: int)
    requires
        0 <= n,
    ensures
        0 <= line_start_before(s, n) <= n,
        newlines_before(s, n) <= n,
    decreases n,
{
    if n > 0 {
        lemma_line_start_bounds(s, n - 1);
    }
}

// ---------------------------------------------------------------------------
// Source
// ---------------------------------------------------------------------------

/// Immutable source text together with a character index to byte offset table.
///
/// `boundaries[i]` is the byte offset at which character `i` begins.
///
/// The boundary table is sized `length + 1`, where the added entry is an EOF marker.
#[derive(Clone)]
pub struct Source {
    text: String,
    identifier: String,
    boundaries: Vec<SourceIndex>,
    chars: Vec<char>,
}

impl View for Source {
    type V = Seq<char>;

    closed spec fn view(&self) -> Seq<char> {
        self.text@
    }
}

impl Source {
    /// The identifier (usually a file name) of the source.
    pub closed spec fn id_view(&self) -> Seq<char> {
        self.identifier@
    }

    /// The character table and the byte-offset table agree with the text,
    /// and every byte offset fits in a `SourceIndex`.
    pub closed spec fn wf(&self) -> bool {
        &&& self.chars@ == self.text@
        &&& self.boundaries@.len() == self.text@.len() + 1
        &&& forall|i: int|
            0 <= i <= self.text@.len() ==> #[trigger] self.boundaries@[i] == utf8_offset(
                self.text@,
                i,
            )
        &&& utf8_offset(self.text@, self.text@.len() as int) < u32::MAX
    }

    /// A well-formed source has fewer than `u32::MAX` characters.
    pub proof fn lemma_len_bound(&self)
        requires
            self.wf(),
        ensures
            self@.len() < u32::MAX,
    {
        lemma_utf8_offset_mono(self.text@, 0, self.text@.len() as int);
    }

    pub fn new(id: &str, text: &str) -> (s: Source)
        requires
            encode_utf8(text@).len() < u32::MAX,
        ensures
            s.wf(),
            s@ == text@,
            s.id_view() == id@,
    {
        let chars = chars_of(text);
        let n = chars.len();
        let ghost t = text@;
        assert(t.take(t.len() as int) =~= t);
        // One entry for every Unicode scalar value, plus the final
        // byte offset representing EOF.
        let mut boundaries: Vec<SourceIndex> = Vec::new();
        let mut offset: u32 = 0;
        assert(t.take(0) =~= Seq::<char>::empty());
        for i in 0..n
            invariant
                n == t.len(),
                chars@ == t,
                utf8_offset(t, n as int) < u32::MAX,
                boundaries@.len() == i,
                offset == utf8_offset(t, i as int),
                forall|j: int| 0 <= j < i ==> #[trigger] boundaries@[j] == utf8_offset(t, j),
        {
            boundaries.push(offset);
            proof {
                lemma_utf8_offset_step(t, i as int);
                lemma_utf8_offset_mono(t, i + 1, n as int);
            }
            offset = offset + utf8_width(chars[i]);
        }
        boundaries.push(offset);
        let s = Source { text: text.to_owned(), identifier: id.to_owned(), boundaries, chars };
        assert forall|i: int| 0 <= i <= s.text@.len() implies #[trigger] s.boundaries@[i]
            == utf8_offset(s.text@, i) by {}
        s
    }

    /// The complete source text.
    pub fn text(&self) -> (r: &str)
        ensures
            r@ == self@,
    {
        self.text.as_str()
    }

    /// The identifier of the source.
    pub fn identifier(&self) -> (r: &str)
        ensures
            r@ == self.id_view(),
    {
        self.identifier.as_str()
    }

    /// Number of Unicode scalar values in the source.
    pub fn len(&self) -> (n: SourceIndex)
        requires
            self.wf(),
        ensures
            n == self@.len(),
    {
        proof {
            self.lemma_len_bound();
        }
        (self.boundaries.len() - 1) as SourceIndex
    }

    pub fn is_empty(&self) -> (b: bool)
        requires
            self.wf(),
        ensures
            b == (self@.len() == 0),
    {
        self.len() == 0
    }

    /// Returns the byte offset corresponding to a character index.
    ///
    /// The EOF character index is valid.
    pub fn byte_index(&self, char_index: SourceIndex) -> (b: usize)
        requires
            self.wf(),
            char_index <= self@.len(),
        ensures
            b == utf8_offset(self@, char_index as int),
    {
        self.boundaries[char_index as usize] as usize
    }

    /// Returns the character at `index`.
    pub fn char_at(&self, index: SourceIndex) -> (c: char)
        requires
            self.wf(),
        ensures
            c == char_or_eof(self@, index as int),
    {
        if index >= self.len() {
            return EOF;
        }
        self.chars[index as usize]
    }

    pub fn char_at_0(&self, index: SourceIndex) -> (c: Option<char>)
        requires
            self.wf(),
        ensures
            c == char_opt(self@, index as int),
    {
        if index >= self.len() {
            return None;
        }
        Some(self.chars[index as usize])
    }

    /// Converts a character-indexed span into a byte range.
    pub fn byte_range(&self, span: SourceSpan) -> (r: Range<usize>)
        requires
            self.wf(),
            span.start <= self@.len(),
            span.end <= self@.len(),
        ensures
            r.start == utf8_offset(self@, span.start as int),
            r.end == utf8_offset(self@, span.end as int),
    {
        Range { start: self.byte_index(span.start), end: self.byte_index(span.end) }
    }

    /// Gets the text corresponding to a character-indexed span.
    pub fn slice(&self, span: SourceSpan) -> (r: &str)
        requires
            self.wf(),
            span.start <= span.end <= self@.len(),
        ensures
            r@ == self@.subrange(span.start as int, span.end as int),
    {
        self.text.as_str().substring_char(span.start as usize, span.end as usize)
    }
}

// ---------------------------------------------------------------------------
// Span operations
// ---------------------------------------------------------------------------

pub trait SourceSpanOps {
    fn start(&self) -> SourceIndex;

    fn end(&self) -> SourceIndex;

    fn join(&self, other: SourceSpan) -> SourceSpan;

    fn contains_span(&self, other: &SourceSpan) -> bool;
}

/// The span covering both spans: from the smaller start to the larger end.
pub open spec fn span_join(a: SourceSpan, b: SourceSpan) -> SourceSpan {
    Range {
        start: if a.start < b.start {
            a.start
        } else {
            b.start
        },
        end: if a.end > b.end {
            a.end
        } else {
            b.end
        },
    }
}

/// `outer` completely contains `inner`.
pub open spec fn span_covers(outer: SourceSpan, inner: SourceSpan) -> bool {
    outer.start <= inner.start && outer.end >= inner.end
}

impl SourceSpanOps for SourceSpan {
    fn start(&self) -> (r: SourceIndex)
        ensures
            r == self.start,
    {
        self.start
    }

    fn end(&self) -> (r: SourceIndex)
        ensures
            r == self.end,
    {
        self.end
    }

    /// Returns a span covering both spans.
    fn join(&self, other: SourceSpan) -> (r: SourceSpan)
        ensures
            r == span_join(*self, other),
    {
        Range {
            start: if self.start < other.start {
                self.start
            } else {
                other.start
            },
            end: if self.end > other.end {
                self.end
            } else {
                other.end
            },
        }
    }

    /// Returns true if this span completely contains `other`.
    fn contains_span(&self, other: &SourceSpan) -> (r: bool)
        ensures
            r == span_covers(*self, *other),
    {
        self.start <= other.start && self.end >= other.end
    }
}

/// A joined span contains both of the spans it was joined from.
pub proof fn law_join_covers_both(a: SourceSpan, b: SourceSpan)
    ensures
        span_covers(span_join(a, b), a),
        span_covers(span_join(a, b), b),
{
}

/// Joining is the smallest cover: any span that contains both spans also
/// contains their join.
pub proof fn law_join_is_least_cover(a: SourceSpan, b: SourceSpan, c: SourceSpan)
    requires
        span_covers(c, a),
        span_covers(c, b),
    ensures
        span_covers(c, span_join(a, b)),
{
}

/// The order in which two spans are joined does not matter.
pub proof fn law_join_commutes(a: SourceSpan, b: SourceSpan)
    ensures
        span_join(a, b) == span_join(b, a),
{
}

/// Containment of spans is transitive.
pub proof fn law_covers_transitive(a: SourceSpan, b: SourceSpan, c: SourceSpan)
    requires
        span_covers(a, b),
        span_covers(b, c),
    ensures
        span_covers(a, c),
{
}

// ---------------------------------------------------------------------------
// Scanning specifications
// ---------------------------------------------------------------------------

/// The first index at or after `i` whose character does not satisfy `p`
/// (the length of `s` when every remaining character does).
pub open spec fn skip_while(s: Seq<char>, i: int, p: spec_fn(char) -> bool) -> int
    decreases s.len() - i,
{
    if 0 <= i < s.len() && p(s[i]) {
        skip_while(s, i + 1, p)
    } else {
        i
    }
}

/// Characters that `char::is_whitespace` accepts.
pub open spec fn whitespace_pred() -> spec_fn(char) -> bool {
    |c: char| spec_is_whitespace(c)
}

/// Characters that may start an identifier.
pub open spec fn is_ident_start(c: char) -> bool {
    c == '_' || spec_is_alphabetic(c)
}

/// Characters that may continue an identifier.
pub open spec fn is_ident_continue(c: char) -> bool {
    c == '_' || spec_is_alphanumeric(c)
}

pub open spec fn ident_continue_pred() -> spec_fn(char) -> bool {
    |c: char| is_ident_continue(c)
}

/// Characters other than a line feed.
pub open spec fn not_newline_pred() -> spec_fn(char) -> bool {
    |c: char| c != '\n'
}

/// The end of the identifier starting at `i`, if one starts there.
pub open spec fn identifier_end(s: Seq<char>, i: int) -> Option<int> {
    if 0 <= i < s.len() && is_ident_start(s[i]) {
        Some(skip_while(s, i + 1, ident_continue_pred()))
    } else {
        None
    }
}

/// Whether `t` occurs in `s` at index `i`.
pub open spec fn occurs_at(s: Seq<char>, i: int, t: Seq<char>) -> bool {
    0 <= i && i + t.len() <= s.len() && s.subrange(i, i + t.len()) == t
}

/// Whether the two characters `a`, `b` occur in `s` at index `i`.
pub open spec fn pair_at(s: Seq<char>, i: int, a: char, b: char) -> bool {
    0 <= i && i + 1 < s.len() && s[i] == a && s[i + 1] == b
}

/// The index just past the first `*/` at or after `j`, if there is one.
pub open spec fn block_comment_close(s: Seq<char>, j: int) -> Option<int>
    decreases s.len() - j,
{
    if 0 <= j < s.len() {
        if pair_at(s, j, '*', '/') {
            Some(j + 2)
        } else {
            block_comment_close(s, j + 1)
        }
    } else {
        None
    }
}

pub proof fn lemma_skip_while_run(s: Seq<char>, a: int, b: int, p: spec_fn(char) -> bool)
    requires
        0 <= a <= b <= s.len(),
        forall|k: int| a <= k < b ==> #[trigger] p(s[k]),
        b == s.len() || !p(s[b]),
    ensures
        skip_while(s, a, p) == b,
    decreases b - a,
{
    if a < b {
        lemma_skip_while_run(s, a + 1, b, p);
    }
}

pub proof fn lemma_skip_while_bounds(s: Seq<char>, a: int, p: spec_fn(char) -> bool)
    requires
        0 <= a <= s.len(),
    ensures
        a <= skip_while(s, a, p) <= s.len(),
    decreases s.len() - a,
{
    if a < s.len() && p(s[a]) {
        lemma_skip_while_bounds(s, a + 1, p);
    }
}

/// `skip_while` stops at the first character from `a` on that fails `p`:
/// every character it passes satisfies `p`.
pub proof fn lemma_skip_while_stops(s: Seq<char>, a: int, p: spec_fn(char) -> bool)
    requires
        0 <= a <= s.len(),
    ensures
        a <= skip_while(s, a, p) <= s.len(),
        forall|k: int| a <= k < skip_while(s, a, p) ==> #[trigger] p(s[k]),
        skip_while(s, a, p) == s.len() || !p(s[skip_while(s, a, p)]),
    decreases s.len() - a,
{
    if a < s.len() && p(s[a]) {
        lemma_skip_while_stops(s, a + 1, p);
    }
}

/// An identifier starts at `i` exactly when the character there is an
/// underscore or alphabetic. It then runs over every following underscore
/// and alphanumeric character, and ends at the first other character (or at
/// the end of the text).
pub proof fn law_identifier_extent(s: Seq<char>, i: int)
    requires
        0 <= i,
    ensures
        identifier_end(s, i) is Some <==> (i < s.len() && (s[i] == '_' || spec_is_alphabetic(s[i]))),
        identifier_end(s, i) matches Some(e) ==> {
            &&& i < e <= s.len()
            &&& forall|k: int| i < k < e ==> #[trigger] s[k] == '_' || spec_is_alphanumeric(s[k])
            &&& e < s.len() ==> s[e] != '_' && !spec_is_alphanumeric(s[e])
        },
{
    if i < s.len() && is_ident_start(s[i]) {
        lemma_skip_while_stops(s, i + 1, ident_continue_pred());
        let e = skip_while(s, i + 1, ident_continue_pred());
        assert forall|k: int| i < k < e implies #[trigger] s[k] == '_' || spec_is_alphanumeric(s[k]) by {
            assert(ident_continue_pred()(s[k]));
        }
    }
}

pub proof fn lemma_block_comment_close_bounds(s: Seq<char>, j: int)
    requires
        0 <= j,
    ensures
        block_comment_close(s, j) matches Some(e) ==> j + 2 <= e <= s.len() && pair_at(
            s,
            e - 2,
            '*',
            '/',
        ),
    decreases s.len() - j,
{
    if 0 <= j < s.len() && !pair_at(s, j, '*', '/') {
        lemma_block_comment_close_bounds(s, j + 1);
    }
}

// ---------------------------------------------------------------------------
// Cursor
// ---------------------------------------------------------------------------

/// A cursor over a `Source`.
#[derive(Clone, Copy)]
pub struct Cursor<'a> {
    source: &'a Source,
    index: SourceIndex,
}

/// A saved cursor position.
#[derive(Debug, Clone, Copy)]
pub struct Checkpoint {
    index: SourceIndex,
}

impl Checkpoint {
    pub closed spec fn pos(&self) -> SourceIndex {
        self.index
    }
}

/// Errors which may be produced when parsing a construct using a Cursor.
#[derive(Debug)]
pub enum CursorParsingError {
    UnexpectedCharacter { position: SourceIndex, expected: char, found: char },
    UnexpectedText { position: SourceIndex, expected: String },
}

impl<'a> Cursor<'a> {
    /// The source the cursor walks over.
    pub closed spec fn src(&self) -> Source {
        *self.source
    }

    /// The character index of the cursor.
    pub closed spec fn pos(&self) -> SourceIndex {
        self.index
    }

    /// The characters of the source.
    pub open spec fn text(&self) -> Seq<char> {
        self.src()@
    }

    pub open spec fn wf(&self) -> bool {
        self.src().wf() && self.pos() <= self.text().len()
    }

    /// The two cursors walk over the same source.
    pub open spec fn same_source(&self, other: Cursor) -> bool {
        self.src() == other.src()
    }

    pub proof fn lemma_wf(&self)
        requires
            self.wf(),
        ensures
            self.text().len() < u32::MAX,
    {
        self.src().lemma_len_bound();
    }

    pub fn new(source: &'a Source) -> (c: Self)
        requires
            source.wf(),
        ensures
            c.wf(),
            c.src() == *source,
            c.pos() == 0,
    {
        Self { source, index: 0 }
    }

    pub fn at(source: &'a Source, index: SourceIndex) -> (c: Self)
        requires
            source.wf(),
            index <= source@.len(),
        ensures
            c.wf(),
            c.src() == *source,
            c.pos() == index,
    {
        Self { source, index }
    }

    // -------------------------------------------------------------------------
    // Position
    // -------------------------------------------------------------------------
    pub fn source(&self) -> (s: &'a Source)
        ensures
            *s == self.src(),
    {
        self.source
    }

    pub fn index(&self) -> (i: SourceIndex)
        ensures
            i == self.pos(),
    {
        self.index
    }

    pub fn byte_index(&self) -> (b: usize)
        requires
            self.wf(),
        ensures
            b == utf8_offset(self.text(), self.pos() as int),
    {
        self.source.byte_index(self.index)
    }

    pub fn is_eof(&self) -> (b: bool)
        requires
            self.wf(),
        ensures
            b == (self.pos() >= self.text().len()),
    {
        self.index >= self.source.len()
    }

    pub fn done(&self) -> (b: bool)
        requires
            self.wf(),
        ensures
            b == (self.pos() >= self.text().len()),
    {
        self.is_eof()
    }

    pub fn remaining(&self) -> (r: SourceSpan)
        requires
            self.wf(),
        ensures
            r.start == self.pos(),
            r.end == self.text().len(),
    {
        Range { start: self.index, end: self.source.len() }
    }

    pub fn mark(&self) -> (i: SourceIndex)
        ensures
            i == self.pos(),
    {
        self.index
    }

    pub fn span_from(&self, start: SourceIndex) -> (r: SourceSpan)
        ensures
            r.start == start,
            r.end == self.pos(),
    {
        Range { start, end: self.index }
    }

    // -------------------------------------------------------------------------
    // Lookahead
    // -------------------------------------------------------------------------
    pub fn peek(&self) -> (c: char)
        requires
            self.wf(),
        ensures
            c == char_or_eof(self.text(), self.pos() as int),
    {
        self.source.char_at(self.index)
    }

    pub fn peek_next(&self) -> (c: char)
        requires
            self.wf(),
        ensures
            c == char_or_eof(self.text(), self.pos() + 1),
    {
        proof {
            self.lemma_wf();
        }
        self.source.char_at(self.index + 1)
    }

    pub fn peek_n(&self, n: SourceIndex) -> (c: char)
        requires
            self.wf(),
            self.pos() + n <= u32::MAX,
        ensures
            c == char_or_eof(self.text(), self.pos() + n),
    {
        self.source.char_at(self.index + n)
    }

    pub fn peek_0(&self) -> (c: Option<char>)
        requires
            self.wf(),
        ensures
            c == char_opt(self.text(), self.pos() as int),
    {
        self.source.char_at_0(self.index)
    }

    pub fn peek_next_0(&self) -> (c: Option<char>)
        requires
            self.wf(),
        ensures
            c == char_opt(self.text(), self.pos() + 1),
    {
        proof {
            self.lemma_wf();
        }
        self.source.char_at_0(self.index + 1)
    }

    pub fn peek_n_0(&self, n: SourceIndex) -> (c: Option<char>)
        requires
            self.wf(),
            self.pos() + n <= u32::MAX,
        ensures
            c == char_opt(self.text(), self.pos() + n),
    {
        self.source.char_at_0(self.index + n)
    }

    pub fn starts_with(&self, text: &str) -> (b: bool)
        requires
            self.wf(),
        ensures
            b == occurs_at(self.text(), self.pos() as int, text@),
    {
        let expected = chars_of(text);
        let n = self.source.len();
        if expected.len() > (n - self.index) as usize {
            return false;
        }
        let mut k: usize = 0;
        while k < expected.len()
            invariant
                self.wf(),
                n == self.text().len(),
                expected@ == text@,
                self.pos() + expected@.len() <= n,
                k <= expected@.len(),
                forall|j: int| 0 <= j < k ==> self.text()[self.pos() + j] == expected@[j],
            decreases expected@.len() - k,
        {
            if self.source.chars[self.index as usize + k] != expected[k] {
                assert(self.text().subrange(self.pos() as int, self.pos() + text@.len())[k as int]
                    != text@[k as int]);
                return false;
            }
            k = k + 1;
        }
        assert(self.text().subrange(self.pos() as int, self.pos() + text@.len()) =~= text@);
        true
    }

    // -------------------------------------------------------------------------
    // Movement
    // -------------------------------------------------------------------------
    pub fn advance(&mut self) -> (c: char)
        requires
            old(self).wf(),
        ensures
            final(self).wf(),
            final(self).same_source(*old(self)),
            final(self).pos() == (if old(self).pos() < old(self).text().len() {
                old(self).pos() + 1
            } else {
                old(self).pos() as int
            }),
            c == char_or_eof(final(self).text(), final(self).pos() as int),
    {
        proof {
            self.lemma_wf();
        }
        if !self.done() {
            self.index += 1
        }
        self.peek()
    }

    pub fn advance_0(&mut self) -> (c: Option<char>)
        requires
            old(self).wf(),
        ensures
            final(self).wf(),
            final(self).same_source(*old(self)),
            final(self).pos() == (if old(self).pos() < old(self).text().len() {
                old(self).pos() + 1
            } else {
                old(self).pos() as int
            }),
            c == char_opt(final(self).text(), final(self).pos() as int),
    {
        proof {
            self.lemma_wf();
        }
        if !self.done() {
            self.index += 1
        }
        self.peek_0()
    }

    pub fn advance_by(&mut self, count: SourceIndex) -> (c: char)
        requires
            old(self).wf(),
            old(self).pos() + count <= old(self).text().len(),
        ensures
            final(self).wf(),
            final(self).same_source(*old(self)),
            final(self).pos() == old(self).pos() + count,
            c == char_or_eof(final(self).text(), final(self).pos() as int),
    {
        proof {
            self.lemma_wf();
        }
        self.index += count;
        self.peek()
    }

    pub fn retreat(&mut self) -> (c: char)
        requires
            old(self).wf(),
            old(self).pos() > 0,
        ensures
            final(self).wf(),
            final(self).same_source(*old(self)),
            final(self).pos() == old(self).pos() - 1,
            c == char_or_eof(final(self).text(), final(self).pos() as int),
    {
        self.index -= 1;
        self.peek()
    }

    pub fn set_index(&mut self, index: SourceIndex)
        requires
            old(self).wf(),
            index <= old(self).text().len(),
        ensures
            final(self).wf(),
            final(self).same_source(*old(self)),
            final(self).pos() == index,
    {
        self.index = index;
    }

    // -------------------------------------------------------------------------
    // Consuming
    // -------------------------------------------------------------------------
    /// Consumes `expected` if it is the current character. At the end of the
    /// source the current character reads as `EOF`, which is never consumed.
    pub fn consume_if(&mut self, expected: char) -> (b: bool)
        requires
            old(self).wf(),
        ensures
            final(self).wf(),
            final(self).same_source(*old(self)),
            b == (char_opt(old(self).text(), old(self).pos() as int) == Some(expected)),
            final(self).pos() == (if b {
                old(self).pos() + 1
            } else {
                old(self).pos() as int
            }),
    {
        proof {
            self.lemma_wf();
        }
        if !self.is_eof() && self.peek() == expected {
            self.index += 1;
            true
        } else {
            false
        }
    }

    pub fn consume_str(&mut self, expected: &str) -> (b: bool)
        requires
            old(self).wf(),
        ensures
            final(self).wf(),
            final(self).same_source(*old(self)),
            b == occurs_at(old(self).text(), old(self).pos() as int, expected@),
            final(self).pos() == (if b {
                old(self).pos() + expected@.len()
            } else {
                old(self).pos() as int
            }),
    {
        if !self.starts_with(expected) {
            return false;
        }
        proof {
            self.lemma_wf();
        }
        let char_count = expected.unicode_len() as SourceIndex;
        self.index += char_count;
        true
    }

    pub fn consume_while<F: Fn(char) -> bool>(&mut self, predicate: F) -> (span: SourceSpan)
        requires
            old(self).wf(),
            forall|c: char| call_requires(predicate, (c,)),
        ensures
            final(self).wf(),
            final(self).same_source(*old(self)),
            old(self).pos() <= final(self).pos(),
            span.start == old(self).pos(),
            span.end == final(self).pos(),
            forall|k: int|
                old(self).pos() <= k < final(self).pos() ==> call_ensures(
                    predicate,
                    (final(self).text()[k],),
                    true,
                ),
            final(self).pos() < final(self).text().len() ==> call_ensures(
                predicate,
                (final(self).text()[final(self).pos() as int],),
                false,
            ),
    {
        let start = self.index;
        loop
            invariant
                self.wf(),
                self.same_source(*old(self)),
                old(self).pos() == start,
                start <= self.pos(),
                forall|c: char| call_requires(predicate, (c,)),
                forall|k: int|
                    start <= k < self.pos() ==> call_ensures(predicate, (self.text()[k],), true),
            ensures
                self.wf(),
                self.same_source(*old(self)),
                start <= self.pos(),
                forall|k: int|
                    start <= k < self.pos() ==> call_ensures(predicate, (self.text()[k],), true),
                self.pos() < self.text().len() ==> call_ensures(
                    predicate,
                    (self.text()[self.pos() as int],),
                    false,
                ),
            decreases self.text().len() - self.pos(),
        {
            match self.peek_0() {
                Some(ch) => {
                    if !predicate(ch) {
                        break ;
                    }
                    proof {
                        self.lemma_wf();
                    }
                    self.index += 1;
                },
                None => {
                    break ;
                },
            }
        }
        self.span_from(start)
    }

    pub fn consume_while_1<F: Fn(char) -> bool>(&mut self, predicate: F) -> (span: Option<
        SourceSpan,
    >)
        requires
            old(self).wf(),
            forall|c: char| call_requires(predicate, (c,)),
        ensures
            final(self).wf(),
            final(self).same_source(*old(self)),
            old(self).pos() <= final(self).pos(),
            forall|k: int|
                old(self).pos() <= k < final(self).pos() ==> call_ensures(
                    predicate,
                    (final(self).text()[k],),
                    true,
                ),
            final(self).pos() < final(self).text().len() ==> call_ensures(
                predicate,
                (final(self).text()[final(self).pos() as int],),
                false,
            ),
            span == (if final(self).pos() == old(self).pos() {
                None
            } else {
                Some(Range { start: old(self).pos(), end: final(self).pos() })
            }),
    {
        let span = self.consume_while(predicate);
        if span.start >= span.end {
            None
        } else {
            assert(span == Range { start: old(self).pos(), end: self.pos() });
            Some(span)
        }
    }

    pub fn here(&self) -> (r: SourceSpan)
        requires
            self.wf(),
        ensures
            r.start == self.pos(),
            r.end == self.pos() + 1,
    {
        proof {
            self.lemma_wf();
        }
        Range { start: self.index, end: self.index + 1 }
    }

    // -------------------------------------------------------------------------
    // Whitespace
    // -------------------------------------------------------------------------
    pub fn consume_whitespace(&mut self) -> (span: SourceSpan)
        requires
            old(self).wf(),
        ensures
            final(self).wf(),
            final(self).same_source(*old(self)),
            final(self).pos() == skip_while(
                old(self).text(),
                old(self).pos() as int,
                whitespace_pred(),
            ),
            old(self).pos() <= final(self).pos(),
            span.start == old(self).pos(),
            span.end == final(self).pos(),
    {
        let pred = |c: char| -> (r: bool)
            ensures
                r == spec_is_whitespace(c),
            { is_whitespace(c) };
        let span = self.consume_while(pred);
        proof {
            lemma_skip_while_run(
                self.text(),
                old(self).pos() as int,
                self.pos() as int,
                whitespace_pred(),
            );
        }
        span
    }

    pub fn consume_whitespace_1(&mut self) -> (span: Option<SourceSpan>)
        requires
            old(self).wf(),
        ensures
            final(self).wf(),
            final(self).same_source(*old(self)),
            final(self).pos() == skip_while(
                old(self).text(),
                old(self).pos() as int,
                whitespace_pred(),
            ),
            span == (if final(self).pos() == old(self).pos() {
                None
            } else {
                Some(Range { start: old(self).pos(), end: final(self).pos() })
            }),
    {
        let span = self.consume_whitespace();
        if span.start >= span.end {
            None
        } else {
            assert(span == Range { start: old(self).pos(), end: self.pos() });
            Some(span)
        }
    }

    // -------------------------------------------------------------------------
    // Identifiers
    // -------------------------------------------------------------------------
    pub fn consume_identifier(&mut self) -> (r: Option<SourceSpan>)
        requires
            old(self).wf(),
        ensures
            final(self).wf(),
            final(self).same_source(*old(self)),
            match identifier_end(old(self).text(), old(self).pos() as int) {
                Some(e) => {
                    &&& r == Some(Range { start: old(self).pos(), end: e as SourceIndex })
                    &&& final(self).pos() == e
                },
                None => r is None && final(self).pos() == old(self).pos(),
            },
    {
        proof {
            self.lemma_wf();
        }
        let start = self.index;
        let first = match self.peek_0() {
            Some(c) => c,
            None => {
                return None;
            },
        };
        if !is_identifier_start(first) {
            return None;
        }
        self.index += 1;
        loop
            invariant
                self.wf(),
                self.same_source(*old(self)),
                start == old(self).pos(),
                start < self.pos(),
                self.text().len() < u32::MAX,
                forall|k: int|
                    start + 1 <= k < self.pos() ==> #[trigger] is_ident_continue(self.text()[k]),
            ensures
                self.wf(),
                self.same_source(*old(self)),
                start < self.pos(),
                forall|k: int|
                    start + 1 <= k < self.pos() ==> #[trigger] is_ident_continue(self.text()[k]),
                self.pos() == self.text().len() || !is_ident_continue(
                    self.text()[self.pos() as int],
                ),
            decreases self.text().len() - self.pos(),
        {
            match self.peek_0() {
                Some(ch) => {
                    if !is_identifier_continue(ch) {
                        break ;
                    }
                    self.index += 1;
                },
                None => {
                    break ;
                },
            }
        }
        proof {
            lemma_skip_while_run(
                self.text(),
                start + 1,
                self.pos() as int,
                ident_continue_pred(),
            );
        }
        Some(self.span_from(start))
    }

    // -------------------------------------------------------------------------
    // Comments
    // -------------------------------------------------------------------------
    pub fn consume_line_comment(&mut self) -> (r: Option<SourceSpan>)
        requires
            old(self).wf(),
        ensures
            final(self).wf(),
            final(self).same_source(*old(self)),
            if pair_at(old(self).text(), old(self).pos() as int, '/', '/') {
                let e = skip_while(old(self).text(), old(self).pos() + 2, not_newline_pred());
                &&& r == Some(Range { start: old(self).pos(), end: e as SourceIndex })
                &&& final(self).pos() == e
            } else {
                r is None && final(self).pos() == old(self).pos()
            },
    {
        let start = self.index;
        proof {
            reveal_strlit("//");
            assert("//"@ =~= seq!['/', '/']);
            lemma_occurs_pair(self.text(), self.pos() as int, "//"@, '/', '/');
        }
        if !self.consume_str("//") {
            return None;
        }
        let pred = |ch: char| -> (r: bool)
            ensures
                r == (ch != '\n'),
            { ch != '\n' };
        self.consume_while(pred);
        proof {
            lemma_skip_while_run(self.text(), start + 2, self.pos() as int, not_newline_pred());
        }
        Some(self.span_from(start))
    }

    pub fn consume_block_comment(&mut self) -> (r: Option<SourceSpan>)
        requires
            old(self).wf(),
        ensures
            final(self).wf(),
            final(self).same_source(*old(self)),
            if pair_at(old(self).text(), old(self).pos() as int, '/', '*') {
                match block_comment_close(old(self).text(), old(self).pos() + 2) {
                    Some(e) => {
                        &&& r == Some(Range { start: old(self).pos(), end: e as SourceIndex })
                        &&& final(self).pos() == e
                    },
                    None => r is None && final(self).pos() == old(self).text().len(),
                }
            } else {
                r is None && final(self).pos() == old(self).pos()
            },
    {
        let start = self.index;
        proof {
            reveal_strlit("/*");
            reveal_strlit("*/");
            assert("/*"@ =~= seq!['/', '*']);
            assert("*/"@ =~= seq!['*', '/']);
            lemma_occurs_pair(self.text(), self.pos() as int, "/*"@, '/', '*');
        }
        if !self.consume_str("/*") {
            return None;
        }
        while !self.is_eof()
            invariant
                self.wf(),
                self.same_source(*old(self)),
                start == old(self).pos(),
                start + 2 <= self.pos(),
                pair_at(self.text(), start as int, '/', '*'),
                "*/"@ == seq!['*', '/'],
                block_comment_close(self.text(), start + 2) == block_comment_close(
                    self.text(),
                    self.pos() as int,
                ),
            decreases self.text().len() - self.pos(),
        {
            let ghost p = self.pos() as int;
            proof {
                lemma_occurs_pair(self.text(), p, "*/"@, '*', '/');
            }
            if self.consume_str("*/") {
                assert(block_comment_close(self.text(), p) == Some(p + 2));
                return Some(self.span_from(start));
            }
            self.advance();
        }
        None
    }

    // -------------------------------------------------------------------------
    // Expectations
    // -------------------------------------------------------------------------
    pub fn expect(&mut self, expected: char) -> (r: Result<SourceSpan, CursorParsingError>)
        requires
            old(self).wf(),
        ensures
            final(self).wf(),
            final(self).same_source(*old(self)),
            if char_opt(old(self).text(), old(self).pos() as int) == Some(expected) {
                &&& r == Ok::<SourceSpan, CursorParsingError>(
                    Range { start: old(self).pos(), end: (old(self).pos() + 1) as SourceIndex },
                )
                &&& final(self).pos() == old(self).pos() + 1
            } else {
                &&& r == Err::<SourceSpan, CursorParsingError>(
                    CursorParsingError::UnexpectedCharacter {
                        position: old(self).pos(),
                        expected,
                        found: char_or_eof(old(self).text(), old(self).pos() as int),
                    },
                )
                &&& final(self).pos() == old(self).pos()
            },
    {
        let start = self.index;
        if self.consume_if(expected) {
            Ok(self.span_from(start))
        } else {
            Err(
                CursorParsingError::UnexpectedCharacter {
                    position: self.index,
                    expected,
                    found: self.peek(),
                },
            )
        }
    }

    pub fn expect_str(&mut self, expected: &str) -> (r: Result<SourceSpan, CursorParsingError>)
        requires
            old(self).wf(),
        ensures
            final(self).wf(),
            final(self).same_source(*old(self)),
            if occurs_at(old(self).text(), old(self).pos() as int, expected@) {
                &&& r matches Ok(span) && span.start == old(self).pos() && span.end
                    == old(self).pos() + expected@.len()
                &&& final(self).pos() == old(self).pos() + expected@.len()
            } else {
                &&& r matches Err(CursorParsingError::UnexpectedText { position, expected: t })
                    && position == old(self).pos() && t@ == expected@
                &&& final(self).pos() == old(self).pos()
            },
    {
        let start = self.index;
        if self.consume_str(expected) {
            Ok(self.span_from(start))
        } else {
            Err(CursorParsingError::UnexpectedText { position: self.index, expected: expected.to_owned() })
        }
    }

    // -------------------------------------------------------------------------
    // Speculative parsing
    // -------------------------------------------------------------------------
    pub fn checkpoint(&self) -> (c: Checkpoint)
        ensures
            c.pos() == self.pos(),
    {
        Checkpoint { index: self.index }
    }

    pub fn restore(&mut self, checkpoint: Checkpoint)
        requires
            old(self).wf(),
            checkpoint.pos() <= old(self).text().len(),
        ensures
            final(self).wf(),
            final(self).same_source(*old(self)),
            final(self).pos() == checkpoint.pos(),
    {
        self.index = checkpoint.index;
    }
}

/// Restoring a checkpoint gives back the very cursor it was taken from,
/// wherever the cursor moved in between.
pub proof fn law_restore_returns_to_checkpoint(
    before: Cursor,
    saved: Checkpoint,
    moved: Cursor,
    restored: Cursor,
)
    requires
        saved.pos() == before.pos(),
        moved.same_source(before),
        restored.same_source(moved),
        restored.pos() == saved.pos(),
    ensures
        restored == before,
{
}

pub proof fn lemma_occurs_pair(s: Seq<char>, i: int, t: Seq<char>, a: char, b: char)
    requires
        t == seq![a, b],
    ensures
        occurs_at(s, i, t) <==> pair_at(s, i, a, b),
{
    if pair_at(s, i, a, b) {
        assert(s.subrange(i, i + 2) =~= t);
    }
    if occurs_at(s, i, t) {
        assert(s.subrange(i, i + 2)[0] == a);
        assert(s.subrange(i, i + 2)[1] == b);
    }
}

fn is_identifier_start(ch: char) -> (r: bool)
    ensures
        r == is_ident_start(ch),
{
    ch == '_' || is_alphabetic(ch)
}

fn is_identifier_continue(ch: char) -> (r: bool)
    ensures
        r == is_ident_continue(ch),
{
    ch == '_' || is_alphanumeric(ch)
}

impl<'a> CharIterator for Cursor<'a> {
    open spec fn chars(&self) -> Seq<char> {
        self.text()
    }

    open spec fn pos(&self) -> u32 {
        Cursor::pos(self)
    }

    open spec fn inv(&self) -> bool {
        self.wf()
    }

    fn index(&self) -> (r: SourceIndex) {
        Cursor::index(self)
    }

    fn restore(&mut self, idx: SourceIndex) {
        self.set_index(idx)
    }

    fn advance_0(&mut self) -> (r: Option<char>) {
        Cursor::advance_0(self)
    }

    fn peek_0(&self) -> (r: Option<char>) {
        Cursor::peek_0(self)
    }

    fn done(&self) -> (r: bool) {
        self.is_eof()
    }
}

impl Source {
    /// Creates a cursor at the beginning of the source.
    pub fn cursor(&self) -> (c: Cursor<'_>)
        requires
            self.wf(),
        ensures
            c.wf(),
            c.src() == *self,
            c.pos() == 0,
    {
        Cursor::new(self)
    }

    /// Creates a cursor at a particular character index.
    pub fn cursor_at(&self, index: SourceIndex) -> (c: Cursor<'_>)
        requires
            self.wf(),
            index <= self@.len(),
        ensures
            c.wf(),
            c.src() == *self,
            c.pos() == index,
    {
        Cursor::at(self, index)
    }

    /// Find the semantic location for the given character index,
    /// this is not a cheap operation: the line is the number of line feeds
    /// before the index, and the column is the distance from the start of
    /// that line (the index just after the last of those line feeds).
    pub fn position_of(&self, index: SourceIndex) -> (p: Position)
        requires
            self.wf(),
            index <= self@.len(),
        ensures
            p.spec_index() == index,
            p.spec_byte_index() == utf8_offset(self@, index as int),
            p.spec_line() == newlines_before(self@, index as int),
            p.spec_column() == index - line_start_before(self@, index as int),
    {
        let byte_position = self.byte_index(index);
        proof {
            self.lemma_len_bound();
        }
        // analyze the text before the index to find line and column
        let mut line: SourceIndex = 0;
        let mut start: SourceIndex = 0;
        let mut i: SourceIndex = 0;
        while i < index
            invariant
                self.wf(),
                index <= self@.len(),
                self@.len() < u32::MAX,
                i <= index,
                line == newlines_before(self@, i as int),
                start == line_start_before(self@, i as int),
                line <= i,
                start <= i,
            decreases index - i,
        {
            if self.char_at(i) == '\n' {
                line = line + 1;
                start = i + 1;
            }
            i = i + 1;
        }
        let column = index - start;
        Position { index, byte_position, line, column }
    }

    /// Convert the span to a segment.
    pub fn as_segment(&self, span: SourceSpan) -> (s: Segment)
        requires
            self.wf(),
            span.start <= self@.len(),
            span.end <= self@.len(),
        ensures
            s.spec_start() == self.spec_position_of(span.start),
            s.spec_end() == self.spec_position_of(span.end),
    {
        let start = self.position_of(span.start);
        let end = self.position_of(span.end);
        Segment { start, end }
    }

    /// How the source describes itself in debug output:
    /// `Source(id: <identifier>, len: <length>}`.
    pub fn debug_string(&self) -> (s: String)
        requires
            self.wf(),
        ensures
            s@ == "Source(id: "@ + self.id_view() + ", len: "@ + decimal(self@.len()) + "}"@,
    {
        let mut s = String::new();
        s.append("Source(id: ");
        s.append(self.identifier.as_str());
        s.append(", len: ");
        push_decimal(&mut s, self.len());
        s.append("}");
        assert(s@ =~= "Source(id: "@ + self.id_view() + ", len: "@ + decimal(self@.len()) + "}"@);
        s
    }

    /// The position that `position_of` reports for `index`.
    pub open spec fn spec_position_of(&self, index: SourceIndex) -> Position {
        Position::spec_new(
            index,
            utf8_offset(self@, index as int) as usize,
            newlines_before(self@, index as int) as SourceIndex,
            (index - line_start_before(self@, index as int)) as SourceIndex,
        )
    }
}

impl<'a> Cursor<'a> {
    /// Runs `f` on the cursor and gives back what `f` gave. When that is
    /// `Some`, the cursor stays where `f` left it; when it is `None`, the
    /// cursor is moved back to the position it had before.
    pub fn try_consume<T, F: FnOnce(&mut Self) -> Option<T>>(&mut self, f: F) -> (r: Option<T>)
        requires
            old(self).wf(),
            forall|c: &mut Self| call_requires(f, (c,)),
        ensures
            r is Some ==> exists|c: &mut Self|
                *c == *old(self) && *final(c) == *final(self) && call_ensures(f, (c,), r),
            r is None ==> exists|c: &mut Self|
                *c == *old(self) && call_ensures(f, (c,), r)
                    && final(self).src() == final(c).src()
                    && final(self).pos() == old(self).pos(),
    {
        let checkpoint = self.index;
        let ghost before = *self;
        match f(self) {
            Some(value) => Some(value),
            None => {
                let ghost mid = *self;
                assert(exists|c: &mut Self|
                    *c == before && call_ensures(f, (c,), None::<T>) && *final(c) == mid);
                self.index = checkpoint;
                assert(self.src() == mid.src() && self.pos() == before.pos());
                None
            },
        }
    }
}

/// Represents a semantic point position in source
#[derive(Debug, Clone, Copy, PartialEq)]
pub struct Position {
    index: SourceIndex,  // The character index into the source file
    byte_position: usize,  // The UTF-8 aligned byte position of the character
    line: SourceIndex,  // The line number of the character referred to by this position
    column: SourceIndex,  // The column number of the character referred to by this position
}

impl Position {
    /// Positions are taken in sources of fewer than `u32::MAX` characters,
    /// so the index after a position is a `SourceIndex` too.
    #[verifier::type_invariant]
    spec fn index_below_max(self) -> bool {
        self.index < u32::MAX
    }

    pub closed spec fn spec_new(
        index: SourceIndex,
        byte_position: usize,
        line: SourceIndex,
        column: SourceIndex,
    ) -> Position {
        Position { index, byte_position, line, column }
    }

    pub closed spec fn spec_index(&self) -> SourceIndex {
        self.index
    }

    pub closed spec fn spec_byte_index(&self) -> usize {
        self.byte_position
    }

    pub closed spec fn spec_line(&self) -> SourceIndex {
        self.line
    }

    pub closed spec fn spec_column(&self) -> SourceIndex {
        self.column
    }

    pub proof fn lemma_spec_new(index: SourceIndex, byte_position: usize, line: SourceIndex, column: SourceIndex)
        ensures
            Self::spec_new(index, byte_position, line, column).spec_index() == index,
            Self::spec_new(index, byte_position, line, column).spec_byte_index() == byte_position,
            Self::spec_new(index, byte_position, line, column).spec_line() == line,
            Self::spec_new(index, byte_position, line, column).spec_column() == column,
    {
    }

    pub fn index(&self) -> (r: SourceIndex)
        ensures
            r == self.spec_index(),
    {
        self.index
    }

    pub fn byte_index(&self) -> (r: usize)
        ensures
            r == self.spec_byte_index(),
    {
        self.byte_position
    }

    pub fn line(&self) -> (r: SourceIndex)
        ensures
            r == self.spec_line(),
    {
        self.line
    }

    pub fn column(&self) -> (r: SourceIndex)
        ensures
            r == self.spec_column(),
    {
        self.column
    }
}

/// A position stands for the span of the one character at its index.
impl From<Position> for SourceSpan {
    fn from(p: Position) -> (r: SourceSpan) {
        proof {
            use_type_invariant(&p);
        }
        Range { start: p.index, end: p.index + 1 }
    }
}

impl vstd::std_specs::convert::FromSpecImpl<Position> for SourceSpan {
    open spec fn obeys_from_spec() -> bool {
        true
    }

    open spec fn from_spec(p: Position) -> SourceSpan {
        Range { start: p.spec_index(), end: (p.spec_index() + 1) as u32 }
    }
}

/// A segment stands for the span from its start index to its end index.
impl From<Segment> for SourceSpan {
    fn from(s: Segment) -> (r: SourceSpan) {
        Range { start: s.start.index, end: s.end.index }
    }
}

impl vstd::std_specs::convert::FromSpecImpl<Segment> for SourceSpan {
    open spec fn obeys_from_spec() -> bool {
        true
    }

    open spec fn from_spec(s: Segment) -> SourceSpan {
        Range { start: s.spec_start().spec_index(), end: s.spec_end().spec_index() }
    }
}

/// Represents a semantic point position in source
#[derive(Debug, Clone, Copy, PartialEq)]
pub struct Segment {
    start: Position,
    end: Position,  // exclusive
}

impl Segment {
    pub closed spec fn spec_start(&self) -> Position {
        self.start
    }

    pub closed spec fn spec_end(&self) -> Position {
        self.end
    }

    /// The position where the segment starts.
    pub fn start_position(&self) -> (p: Position)
        ensures
            p == self.spec_start(),
    {
        self.start
    }

    /// The position where the segment ends (exclusive).
    pub fn end_position(&self) -> (p: Position)
        ensures
            p == self.spec_end(),
    {
        self.end
    }

    pub fn as_span(&self) -> (r: SourceSpan)
        ensures
            r.start == self.spec_start().spec_index(),
            r.end == self.spec_end().spec_index(),
    {
        Range { start: self.start.index, end: self.end.index }
    }

    /// The number of characters in the segment: from its start up to its
    /// (exclusive) end, none when the end is not after the start.
    pub fn length(&self) -> (r: SourceIndex)
        ensures
            r == (if self.spec_start().spec_index() <= self.spec_end().spec_index() {
                self.spec_end().spec_index() - self.spec_start().spec_index()
            } else {
                0
            }),
    {
        if self.start.index <= self.end.index {
            self.end.index - self.start.index
        } else {
            0
        }
    }
}

pub trait OptionalChar {
    fn is_eof(&self) -> bool;

    fn expect(&self) -> Result<(), ()>;

    fn opt(&self) -> Option<char>;
}

impl OptionalChar for char {
    fn is_eof(&self) -> (r: bool)
        ensures
            r == (*self == EOF),
    {
        *self == EOF
    }

    fn expect(&self) -> (r: Result<(), ()>)
        ensures
            r == (if *self == EOF {
                Err::<(), ()>(())
            } else {
                Ok(())
            }),
    {
        if self.is_eof() {
            Err(())
        } else {
            Ok(())
        }
    }

    fn opt(&self) -> (r: Option<char>)
        ensures
            r == (if *self == EOF {
                None
            } else {
                Some(*self)
            }),
    {
        if self.is_eof() {
            None
        } else {
            Some(*self)
        }
    }
}

} // verus!
