use vstd::prelude::*;
use std::ops::Range;
use crate::source::{char_or_eof, Source, SourceSpan};

verus! {

/// The spans in `lines` are complete lines of `s` that cover `[0, upto)`:
/// they follow one another from index 0, each ends just after a newline,
/// and no other character of a span is a newline.
pub open spec fn complete_lines(s: Seq<char>, lines: Seq<SourceSpan>, upto: int) -> bool {
    &&& lines.len() == 0 ==> upto == 0
    &&& lines.len() > 0 ==> lines[0].start == 0 && lines.last().end == upto
    &&& forall|k1: int, k2: int|
        #![trigger lines[k1], lines[k2]]
        0 <= k1 && k2 == k1 + 1 && k2 < lines.len() ==> lines[k1].end == lines[k2].start
    &&& forall|k: int|
        0 <= k < lines.len() ==> #[trigger] lines[k].start < lines[k].end <= s.len()
    &&& forall|k: int, j: int|
        #![trigger lines[k], s[j]]
        0 <= k < lines.len() && lines[k].start <= j < lines[k].end ==> (s[j] == '\n' <==> j
            == lines[k].end - 1)
}

/// `lines` splits `s` into its lines: spans that follow one another from
/// index 0 to the end of `s`; every span but the last ends just after a
/// newline and holds no other newline, and the last span holds none.
pub open spec fn is_line_split(s: Seq<char>, lines: Seq<SourceSpan>) -> bool {
    &&& lines.len() >= 1
    &&& complete_lines(s, lines.drop_last(), lines.last().start as int)
    &&& lines.last().start <= lines.last().end == s.len()
    &&& forall|j: int| lines.last().start <= j < s.len() ==> #[trigger] s[j] != '\n'
}

/// Every line of a split lies within the text.
pub proof fn lemma_line_split_bounds(s: Seq<char>, lines: Seq<SourceSpan>)
    requires
        is_line_split(s, lines),
    ensures
        forall|k: int|
            #![trigger lines[k]]
            0 <= k < lines.len() ==> lines[k].start <= lines[k].end <= s.len(),
{
    assert forall|k: int| #![trigger lines[k]] 0 <= k < lines.len() implies lines[k].start <= lines[k].end
        <= s.len() by {
        if k < lines.len() - 1 {
            assert(lines.drop_last()[k] == lines[k]);
        }
    }
}

/// What a split says of its line `k`.
proof fn lemma_split_line(s: Seq<char>, lines: Seq<SourceSpan>, k: int)
    requires
        is_line_split(s, lines),
        0 <= k < lines.len(),
    ensures
        lines[k].start <= lines[k].end <= s.len(),
        k == 0 ==> lines[k].start == 0,
        k > 0 ==> lines[k].start == lines[k - 1].end,
        k < lines.len() - 1 ==> {
            &&& lines[k].start < lines[k].end
            &&& s[lines[k].end - 1] == '\n'
            &&& forall|j: int| lines[k].start <= j < lines[k].end - 1 ==> #[trigger] s[j] != '\n'
        },
        k == lines.len() - 1 ==> {
            &&& lines[k].end == s.len()
            &&& forall|j: int| lines[k].start <= j < s.len() ==> #[trigger] s[j] != '\n'
        },
{
    let d = lines.drop_last();
    let n = lines.len() - 1;
    if k < n {
        assert(d[k] == lines[k]);
        assert(s[lines[k].end - 1] == '\n' <==> lines[k].end - 1 == d[k].end - 1);
        assert forall|j: int| lines[k].start <= j < lines[k].end - 1 implies #[trigger] s[j] != '\n' by {
            assert(d[k].start <= j < d[k].end);
        }
    }
    if k > 0 {
        assert(d[k - 1] == lines[k - 1]);
        if k < n {
            assert(d[k] == lines[k]);
            assert(d[k - 1].end == d[k].start);
        } else {
            assert(d.last() == lines[k - 1]);
        }
    } else if n > 0 {
        assert(d[0] == lines[0]);
    }
}

/// Two splits of one text agree on their first `k` lines.
proof fn lemma_splits_agree(s: Seq<char>, a: Seq<SourceSpan>, b: Seq<SourceSpan>, k: int)
    requires
        is_line_split(s, a),
        is_line_split(s, b),
        0 <= k <= a.len(),
        k <= b.len(),
    ensures
        forall|j: int| 0 <= j < k ==> a[j] == b[j],
    decreases k,
{
    if k > 0 {
        let i = k - 1;
        lemma_splits_agree(s, a, b, i);
        lemma_split_line(s, a, i);
        lemma_split_line(s, b, i);
        if i > 0 {
            assert(a[i - 1] == b[i - 1]);
        }
        assert(a[i].start == b[i].start);
        if i < a.len() - 1 && i < b.len() - 1 {
            if a[i].end < b[i].end {
                assert(s[a[i].end - 1] != '\n');
            } else if b[i].end < a[i].end {
                assert(s[b[i].end - 1] != '\n');
            }
        } else if i < a.len() - 1 {
            assert(s[a[i].end - 1] != '\n');
        } else if i < b.len() - 1 {
            assert(s[b[i].end - 1] != '\n');
        }
        assert(a[i] == b[i]);
    }
}

/// A text has only one split into lines.
pub proof fn law_line_split_unique(s: Seq<char>, a: Seq<SourceSpan>, b: Seq<SourceSpan>)
    requires
        is_line_split(s, a),
        is_line_split(s, b),
    ensures
        a == b,
{
    if a.len() < b.len() {
        lemma_splits_agree(s, a, b, a.len() as int);
        lemma_split_line(s, a, a.len() - 1);
        lemma_split_line(s, b, a.len() - 1);
        assert(a[a.len() - 1] == b[a.len() - 1]);
        assert(s[b[a.len() - 1].end - 1] != '\n');
    } else if b.len() < a.len() {
        lemma_splits_agree(s, a, b, b.len() as int);
        lemma_split_line(s, a, b.len() - 1);
        lemma_split_line(s, b, b.len() - 1);
        assert(a[b.len() - 1] == b[b.len() - 1]);
        assert(s[a[b.len() - 1].end - 1] != '\n');
    } else {
        lemma_splits_agree(s, a, b, a.len() as int);
    }
    assert(a =~= b);
}

/// The split of `s` into its lines (there is exactly one; see
/// `law_line_split_unique`).
pub open spec fn line_split(s: Seq<char>) -> Seq<SourceSpan> {
    choose|l: Seq<SourceSpan>| is_line_split(s, l)
}

/// The index of the line that holds character index `x`: the last line
/// that starts at or before `x`, searching from line `k` on.
pub open spec fn line_index_from(lines: Seq<SourceSpan>, x: int, k: int) -> int
    decreases lines.len() - k,
{
    if 0 <= k && k + 1 < lines.len() && lines[k + 1].start <= x {
        line_index_from(lines, x, k + 1)
    } else {
        k
    }
}

/// The index of the line that holds character index `x` (the last line
/// for an index at or past its start).
pub open spec fn line_index(lines: Seq<SourceSpan>, x: int) -> int {
    line_index_from(lines, x, 0)
}

/// The last character index a span touches: its start when it is empty.
pub open spec fn last_touched(span: SourceSpan) -> int {
    if span.end > span.start {
        span.end - 1
    } else {
        span.start as int
    }
}

/// The range of line indices that `span` touches.
pub open spec fn spec_find_lines(lines: Seq<SourceSpan>, span: SourceSpan) -> Range<int> {
    Range { start: line_index(lines, span.start as int), end: line_index(lines, last_touched(span)) + 1 }
}

proof fn lemma_line_index_bounds(lines: Seq<SourceSpan>, x: int, k: int)
    requires
        0 <= k < lines.len(),
    ensures
        k <= line_index_from(lines, x, k) < lines.len(),
    decreases lines.len() - k,
{
    if k + 1 < lines.len() && lines[k + 1].start <= x {
        lemma_line_index_bounds(lines, x, k + 1);
    }
}

proof fn lemma_line_index_mono(lines: Seq<SourceSpan>, x: int, y: int, k: int)
    requires
        0 <= k < lines.len(),
        x <= y,
    ensures
        line_index_from(lines, x, k) <= line_index_from(lines, y, k),
    decreases lines.len() - k,
{
    if k + 1 < lines.len() && lines[k + 1].start <= x {
        lemma_line_index_mono(lines, x, y, k + 1);
    } else {
        lemma_line_index_bounds(lines, y, k);
    }
}

impl Source {
    /// The lines of the source, as character spans; each span includes the
    /// newline that ends it, and the last line runs to the end of the text.
    pub fn lines(&self) -> (r: Vec<SourceSpan>)
        requires
            self.wf(),
        ensures
            is_line_split(self@, r@),
            r@ == line_split(self@),
            r@.len() <= self@.len() + 1,
    {
        let n = self.len();
        let ghost s = self@;
        let mut lines: Vec<SourceSpan> = Vec::new();
        let mut start: u32 = 0;
        let mut i: u32 = 0;
        while i < n
            invariant
                self.wf(),
                s == self@,
                n == s.len(),
                start <= i <= n,
                complete_lines(s, lines@, start as int),
                lines@.len() <= start,
                forall|j: int| start <= j < i ==> #[trigger] s[j] != '\n',
            decreases n - i,
        {
            if self.char_at(i) == '\n' {
                let ghost old_lines = lines@;
                lines.push(Range { start, end: i + 1 });
                assert forall|k: int, j: int|
                    #![trigger lines@[k], s[j]]
                    0 <= k < lines@.len() && lines@[k].start <= j < lines@[k].end implies (s[j]
                        == '\n' <==> j == lines@[k].end - 1) by {
                    if k < old_lines.len() {
                        assert(lines@[k] == old_lines[k]);
                    }
                }
                assert forall|k1: int, k2: int|
                    #![trigger lines@[k1], lines@[k2]]
                    0 <= k1 && k2 == k1 + 1 && k2 < lines@.len() implies lines@[k1].end
                        == lines@[k2].start by {
                    if k2 < old_lines.len() {
                        assert(lines@[k1] == old_lines[k1] && lines@[k2] == old_lines[k2]);
                    } else {
                        assert(lines@[k1] == old_lines.last());
                    }
                }
                start = i + 1;
            }
            i = i + 1;
        }
        let ghost done = lines@;
        lines.push(Range { start, end: n });
        assert(lines@.drop_last() =~= done);
        proof {
            assert(is_line_split(s, lines@));
            law_line_split_unique(s, line_split(s), lines@);
        }
        lines
    }
}

/// The index of the line that holds character index `x`.
pub fn line_index_of(lines: &Vec<SourceSpan>, x: u32) -> (k: usize)
    requires
        lines@.len() >= 1,
    ensures
        k == line_index(lines@, x as int),
        k < lines@.len(),
{
    let mut k: usize = 0;
    proof {
        lemma_line_index_bounds(lines@, x as int, 0);
    }
    while k < lines.len() - 1 && lines[k + 1].start <= x
        invariant
            lines@.len() >= 1,
            k < lines@.len(),
            line_index_from(lines@, x as int, k as int) == line_index(lines@, x as int),
        decreases lines@.len() - k,
    {
        k = k + 1;
    }
    k
}

/// The range of line indices that `span` touches: from the line of its
/// first character to the line of its last one.
pub fn find_lines(lines: &Vec<SourceSpan>, span: SourceSpan) -> (r: Range<usize>)
    requires
        lines@.len() >= 1,
    ensures
        r.start == spec_find_lines(lines@, span).start,
        r.end == spec_find_lines(lines@, span).end,
        r.start < r.end <= lines@.len(),
{
    let last = if span.end > span.start {
        span.end - 1
    } else {
        span.start
    };
    let first = line_index_of(lines, span.start);
    let l = line_index_of(lines, last);
    proof {
        lemma_line_index_mono(lines@, span.start as int, last as int, 0);
        assert(lines.len() == lines@.len());
    }
    Range { start: first, end: l + 1 }
}

} // verus!
