//! The table of source lines, which maps a character offset to its line.
use vstd::prelude::*;
use crate::lexer::newline_at_or_after;

verus! {

/// The bounds of one source line: `start` is its first character, `end` the
/// offset of the newline that closes it (or the text's length for the last
/// line).
#[derive(Debug, Clone, Copy, PartialEq, Eq, Structural)]
pub struct LineInfo {
    pub start: usize,
    pub end: usize,
}

/// The offset at which the line holding offset `n` starts: just past the
/// last newline before `n`, or 0.
pub open spec fn line_start_at(s: Seq<char>, n: int) -> int
    decreases n,
{
    if n <= 0 {
        0
    } else if s[n - 1] == '\n' {
        n
    } else {
        line_start_at(s, n - 1)
    }
}

/// The lines that newlines before offset `n` have closed, in order.
pub open spec fn closed_lines(s: Seq<char>, n: int) -> Seq<LineInfo>
    decreases n,
{
    if n <= 0 {
        Seq::empty()
    } else if s[n - 1] == '\n' {
        closed_lines(s, n - 1).push(
            LineInfo { start: line_start_at(s, n - 1) as usize, end: (n - 1) as usize },
        )
    } else {
        closed_lines(s, n - 1)
    }
}

/// All lines of a text: those closed by a newline, then the last one, which
/// runs to the end of the text.
pub open spec fn line_spans(s: Seq<char>) -> Seq<LineInfo> {
    closed_lines(s, s.len() as int).push(
        LineInfo { start: line_start_at(s, s.len() as int) as usize, end: s.len() as usize },
    )
}

/// The 0-based index of the line that holds offset `p`: the number of
/// newlines before it.
pub open spec fn line_index(s: Seq<char>, p: int) -> int {
    closed_lines(s, p).len() as int
}

/// The index of the first line in `lines` that holds `p` (starts at or
/// before it and ends at or after it), or the number of lines if there is
/// none.
pub open spec fn first_line_containing(lines: Seq<LineInfo>, p: int) -> int
    decreases lines.len(),
{
    if lines.len() == 0 {
        0
    } else if lines[0].start <= p <= lines[0].end {
        0
    } else {
        1 + first_line_containing(lines.drop_first(), p)
    }
}

/// A stretch of text without newline changes neither the closed lines nor
/// where the current line starts.
pub proof fn lemma_no_newline(s: Seq<char>, i: int, j: int)
    requires
        0 <= i <= j <= s.len(),
        forall|k: int| i <= k < j ==> s[k] != '\n',
    ensures
        closed_lines(s, j) == closed_lines(s, i),
        line_start_at(s, j) == line_start_at(s, i),
    decreases j - i,
{
    if j > i {
        lemma_no_newline(s, i, j - 1);
    }
}

/// The lines closed before `p` end before `p`; those closed later end at or
/// after `p`, and start after it or at it.
pub proof fn lemma_closed_lines_prefix(s: Seq<char>, p: int, q: int)
    requires
        0 <= p <= q <= s.len(),
        s.len() <= usize::MAX,
    ensures
        closed_lines(s, p).len() <= closed_lines(s, q).len(),
        forall|k: int|
            0 <= k < closed_lines(s, p).len() ==> closed_lines(s, q)[k] == closed_lines(s, p)[k]
                && closed_lines(s, p)[k].end < p,
        forall|k: int|
            closed_lines(s, p).len() <= k < closed_lines(s, q).len() ==> closed_lines(s, q)[k].end
                >= p,
    decreases q - p,
{
    if q > p {
        lemma_closed_lines_prefix(s, p, q - 1);
    } else {
        lemma_closed_lines_bounded(s, p);
    }
}

/// Every line closed before `n` ends before `n`.
pub proof fn lemma_closed_lines_bounded(s: Seq<char>, n: int)
    requires
        0 <= n <= s.len(),
        s.len() <= usize::MAX,
    ensures
        forall|k: int| 0 <= k < closed_lines(s, n).len() ==> closed_lines(s, n)[k].end < n,
    decreases n,
{
    if n > 0 {
        lemma_closed_lines_bounded(s, n - 1);
        let prev = closed_lines(s, n - 1);
        if s[n - 1] == '\n' {
            assert forall|k: int| 0 <= k < closed_lines(s, n).len() implies closed_lines(
                s,
                n,
            )[k].end < n by {
                if k < prev.len() {
                    assert(closed_lines(s, n)[k] == prev[k]);
                }
            }
        }
    }
}

/// The first line of the table that holds `p` is the line that `p` is on.
pub proof fn lemma_line_lookup(s: Seq<char>, p: int)
    requires
        0 <= p <= s.len(),
        s.len() <= usize::MAX,
    ensures
        first_line_containing(line_spans(s), p) == line_index(s, p),
{
    let lines = line_spans(s);
    let n = line_index(s, p);
    lemma_closed_lines_prefix(s, p, s.len() as int);
    lemma_line_bounds(s, p);
    lemma_line_start_le(s, p);
    lemma_newline_scan(s, p);
    assert forall|k: int| 0 <= k < n implies lines[k].end < p by {}
    lemma_first_line_containing(lines, p, n);
}

proof fn lemma_first_line_containing(lines: Seq<LineInfo>, p: int, n: int)
    requires
        0 <= n < lines.len(),
        forall|k: int| 0 <= k < n ==> lines[k].end < p,
        lines[n].start <= p <= lines[n].end,
    ensures
        first_line_containing(lines, p) == n,
    decreases n,
{
    if n > 0 {
        let rest = lines.drop_first();
        assert forall|k: int| 0 <= k < n - 1 implies rest[k].end < p by {
            assert(rest[k] == lines[k + 1]);
        }
        lemma_first_line_containing(rest, p, n - 1);
    }
}

/// The first newline at or after `p` is the first newline of the text there.
pub proof fn lemma_newline_scan(s: Seq<char>, p: int)
    requires
        0 <= p <= s.len(),
    ensures
        p <= newline_at_or_after(s, p) <= s.len(),
        forall|k: int| p <= k < newline_at_or_after(s, p) ==> s[k] != '\n',
        newline_at_or_after(s, p) < s.len() ==> s[newline_at_or_after(s, p)] == '\n',
    decreases s.len() - p,
{
    if p < s.len() {
        lemma_newline_scan(s, p + 1);
    }
}

/// There are no more lines before an offset than characters.
pub proof fn lemma_line_index_le(s: Seq<char>, p: int)
    requires
        0 <= p <= s.len(),
    ensures
        0 <= line_index(s, p) <= p,
    decreases p,
{
    if p > 0 {
        lemma_line_index_le(s, p - 1);
    }
}

/// A line starts at or before any offset it holds.
pub proof fn lemma_line_start_le(s: Seq<char>, p: int)
    requires
        0 <= p <= s.len(),
    ensures
        0 <= line_start_at(s, p) <= p,
    decreases p,
{
    if p > 0 {
        lemma_line_start_le(s, p - 1);
    }
}

/// The line that holds offset `p` runs from the start of that line to the
/// next newline, or to the end of the text.
pub proof fn lemma_line_bounds(s: Seq<char>, p: int)
    requires
        0 <= p <= s.len(),
        s.len() <= usize::MAX,
    ensures
        line_index(s, p) < line_spans(s).len(),
        line_spans(s)[line_index(s, p)] == (LineInfo {
            start: line_start_at(s, p) as usize,
            end: newline_at_or_after(s, p) as usize,
        }),
{
    let n = line_index(s, p);
    let m = newline_at_or_after(s, p);
    let len = s.len() as int;
    lemma_newline_scan(s, p);
    lemma_no_newline(s, p, m);
    if m < len {
        lemma_closed_lines_prefix(s, m + 1, len);
        assert(closed_lines(s, m + 1) == closed_lines(s, m).push(
            LineInfo { start: line_start_at(s, m) as usize, end: m as usize },
        ));
        assert(closed_lines(s, len)[n] == closed_lines(s, m + 1)[n]);
    } else {
        assert(closed_lines(s, len).len() == n);
    }
}

/// The lines of a text, in order.
#[derive(Debug)]
pub struct LineTable(Vec<LineInfo>);

impl View for LineTable {
    type V = Seq<LineInfo>;

    closed spec fn view(&self) -> Seq<LineInfo> {
        self.0@
    }
}

impl LineTable {
    pub fn new() -> (r: LineTable)
        ensures
            r@ == Seq::<LineInfo>::empty(),
    {
        LineTable(Vec::new())
    }

    pub fn push(&mut self, value: LineInfo)
        ensures
            final(self)@ == old(self)@.push(value),
    {
        self.0.push(value);
    }

    /// The index of the first line that holds `position`, or the number of
    /// lines if none does.
    pub fn get_line_index_of(&self, position: usize) -> (r: usize)
        ensures
            r == first_line_containing(self@, position as int),
    {
        let mut index: usize = 0;
        proof {
            assert(self@.subrange(0, self@.len() as int) == self@);
        }
        while index < self.0.len()
            invariant
                index <= self@.len(),
                first_line_containing(self@, position as int) == index + first_line_containing(
                    self@.subrange(index as int, self@.len() as int),
                    position as int,
                ),
            decreases self@.len() - index,
        {
            proof {
                let rest = self@.subrange(index as int, self@.len() as int);
                assert(rest.drop_first() == self@.subrange(index + 1, self@.len() as int));
            }
            if self.0[index].start <= position && position <= self.0[index].end {
                return index;
            }
            index = index + 1;
        }
        index
    }

    /// The bounds of the line that holds `position`, the one that
    /// `get_line_index_of` reports, or `(0, 0)` if there is none.
    pub fn get_line_of(&self, position: usize) -> (r: (usize, usize))
        ensures
            ({
                let k = first_line_containing(self@, position as int);
                &&& k < self@.len() ==> r == (self@[k].start, self@[k].end)
                &&& k >= self@.len() ==> r == (0usize, 0usize)
            }),
    {
        let index = self.get_line_index_of(position);
        match self.get(index) {
            Some(line) => (line.start, line.end),
            None => (0, 0),
        }
    }

    /// The line at `index`, if there is one.
    pub fn get(&self, index: usize) -> (r: Option<LineInfo>)
        ensures
            r == (if index < self@.len() {
                Some(self@[index as int])
            } else {
                None
            }),
    {
        if index < self.0.len() {
            Some(self.0[index])
        } else {
            None
        }
    }
}

} // verus!
