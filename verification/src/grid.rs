//! The position grid: the rows of a template, addressed by row and column.

use crate::text::{chars_of, text_of};
use vstd::prelude::*;

verus! {

/// `s` with every carriage return taken out.
pub open spec fn without_cr(s: Seq<char>) -> Seq<char>
    decreases s.len(),
{
    if s.len() == 0 {
        s
    } else if s.last() == '\r' {
        without_cr(s.drop_last())
    } else {
        without_cr(s.drop_last()).push(s.last())
    }
}

/// The offset of the first newline at or after `from`, or the length of `s`
/// when there is none.
pub open spec fn line_end(s: Seq<char>, from: int) -> int
    decreases s.len() - from,
{
    if from < 0 || from >= s.len() || s[from] == '\n' {
        from
    } else {
        line_end(s, from + 1)
    }
}

/// The rows of `s[from..]`: the pieces between newlines. A newline ends a
/// row, so text that ends in a newline has no empty row after it.
pub open spec fn rows_from(s: Seq<char>, from: int) -> Seq<Seq<char>>
    decreases s.len() - from,
{
    if from < 0 || from >= s.len() {
        Seq::empty()
    } else {
        let end = line_end(s, from);
        if end >= s.len() {
            seq![s.subrange(from, s.len() as int)]
        } else {
            proof {
                lemma_line_end_bounds(s, from);
            }
            seq![s.subrange(from, end)] + rows_from(s, end + 1)
        }
    }
}

/// The rows of a template: carriage returns are dropped, newlines separate
/// the rows and are not part of them.
pub open spec fn grid_rows(input: Seq<char>) -> Seq<Seq<char>> {
    rows_from(without_cr(input), 0)
}

/// No row holds a newline or a carriage return.
pub open spec fn rows_clean(rows: Seq<Seq<char>>) -> bool {
    forall|i: int, j: int|
        0 <= i < rows.len() && 0 <= j < rows[i].len() ==> (#[trigger] rows[i][j]) != '\n'
            && rows[i][j] != '\r'
}

/// The rows put together again, with one newline between neighbours.
pub open spec fn joined(rows: Seq<Seq<char>>) -> Seq<char>
    decreases rows.len(),
{
    if rows.len() == 0 {
        Seq::empty()
    } else if rows.len() == 1 {
        rows[0]
    } else {
        joined(rows.drop_last()) + seq!['\n'] + rows.last()
    }
}

/// A row ends at or after its start, at a newline or at the end of the
/// text, and holds no newline.
pub proof fn lemma_line_end_bounds(s: Seq<char>, from: int)
    requires
        0 <= from <= s.len(),
    ensures
        from <= line_end(s, from) <= s.len(),
        line_end(s, from) < s.len() ==> s[line_end(s, from)] == '\n',
        forall|k: int| from <= k < line_end(s, from) ==> s[k] != '\n',
    decreases s.len() - from,
{
    if from < s.len() && s[from] != '\n' {
        lemma_line_end_bounds(s, from + 1);
    }
}

/// What is left without carriage returns holds none, and is no longer
/// than the text.
pub proof fn lemma_without_cr_clean(s: Seq<char>)
    ensures
        forall|k: int| 0 <= k < without_cr(s).len() ==> without_cr(s)[k] != '\r',
        without_cr(s).len() <= s.len(),
    decreases s.len(),
{
    if s.len() > 0 {
        lemma_without_cr_clean(s.drop_last());
    }
}

/// The rows of a text without carriage returns are clean.
pub proof fn lemma_rows_from_clean(s: Seq<char>, from: int)
    requires
        0 <= from,
        forall|k: int| 0 <= k < s.len() ==> s[k] != '\r',
    ensures
        rows_clean(rows_from(s, from)),
    decreases s.len() - from,
{
    if from < s.len() {
        lemma_line_end_bounds(s, from);
        let end = line_end(s, from);
        if end < s.len() {
            lemma_rows_from_clean(s, end + 1);
        }
    }
}

/// The rows of a template, indexed by row and column.
#[derive(Debug, PartialEq, Eq, Hash)]
pub struct PositionGrid {
    rows: Vec<Vec<char>>,
}

impl View for PositionGrid {
    type V = Seq<Seq<char>>;

    closed spec fn view(&self) -> Seq<Seq<char>> {
        Seq::new(self.rows@.len(), |i: int| self.rows@[i]@)
    }
}

/// A copy of `v[from..to]`.
fn copy_range(v: &Vec<char>, from: usize, to: usize) -> (r: Vec<char>)
    requires
        from <= to <= v.len(),
    ensures
        r@ == v@.subrange(from as int, to as int),
{
    let mut r: Vec<char> = Vec::new();
    let mut i: usize = from;
    while i < to
        invariant
            from <= i <= to <= v.len(),
            r@ == v@.subrange(from as int, i as int),
        decreases to - i,
    {
        r.push(v[i]);
        i += 1;
    }
    r
}

/// The characters of `input` that are not carriage returns.
fn strip_cr(input: &Vec<char>) -> (r: Vec<char>)
    ensures
        r@ == without_cr(input@),
{
    let mut r: Vec<char> = Vec::new();
    let mut i: usize = 0;
    while i < input.len()
        invariant
            i <= input.len(),
            r@ == without_cr(input@.take(i as int)),
        decreases input.len() - i,
    {
        assert(input@.take(i + 1).drop_last() == input@.take(i as int));
        if input[i] != '\r' {
            r.push(input[i]);
        }
        i += 1;
    }
    assert(input@.take(input.len() as int) == input@);
    r
}

impl PositionGrid {
    #[verifier::type_invariant]
    spec fn clean(self) -> bool {
        rows_clean(self@)
    }

    /// Indexes `input` by rows. Never fails.
    pub fn build(input: &str) -> (grid: PositionGrid)
        ensures
            grid@ == grid_rows(input@),
            rows_clean(grid@),
    {
        let raw = chars_of(input);
        let text = strip_cr(&raw);
        let n = text.len();
        let mut rows: Vec<Vec<char>> = Vec::new();
        let mut start: usize = 0;
        let mut done = false;
        while !done && start < n
            invariant
                n == text.len(),
                start <= n,
                !done ==> Seq::new(rows@.len(), |i: int| rows@[i]@) + rows_from(text@, start as int)
                    == rows_from(text@, 0),
                done ==> Seq::new(rows@.len(), |i: int| rows@[i]@) == rows_from(text@, 0),
            decreases n - start, if done { 0int } else { 1int },
        {
            let mut end: usize = start;
            while end < n && text[end] != '\n'
                invariant
                    n == text.len(),
                    start <= end <= n,
                    line_end(text@, start as int) == line_end(text@, end as int),
                decreases n - end,
            {
                end += 1;
            }
            let row = copy_range(&text, start, end);
            let ghost before = Seq::new(rows@.len(), |i: int| rows@[i]@);
            rows.push(row);
            assert(Seq::new(rows@.len(), |i: int| rows@[i]@) == before + seq![
                text@.subrange(start as int, end as int),
            ]);
            if end == n {
                done = true;
            } else {
                start = end + 1;
            }
        }
        proof {
            lemma_without_cr_clean(raw@);
            lemma_rows_from_clean(text@, 0);
        }
        PositionGrid { rows }
    }

    /// The number of rows.
    pub fn row_count(&self) -> (n: usize)
        ensures
            n == self@.len(),
    {
        self.rows.len()
    }

    /// The text of row `i`, if the grid has such a row.
    pub fn get_row(&self, i: usize) -> (row: Option<String>)
        ensures
            i < self@.len() ==> row is Some && row->0@ == self@[i as int],
            i >= self@.len() ==> row is None,
    {
        if i < self.rows.len() {
            Some(text_of(&self.rows[i]))
        } else {
            None
        }
    }

    /// The character at column `col` of row `row`, if there is one.
    pub fn get_char(&self, row: usize, col: usize) -> (c: Option<char>)
        ensures
            row < self@.len() && col < self@[row as int].len() ==> c == Some(
                self@[row as int][col as int],
            ),
            !(row < self@.len() && col < self@[row as int].len()) ==> c is None,
    {
        if row < self.rows.len() {
            if col < self.rows[row].len() {
                return Some(self.rows[row][col]);
            }
        }
        None
    }

    /// The whole text of the grid: its rows with a newline between
    /// neighbours.
    pub fn text(&self) -> (text: Vec<char>)
        ensures
            text@ == joined(self@),
    {
        let mut text: Vec<char> = Vec::new();
        let mut i: usize = 0;
        while i < self.rows.len()
            invariant
                i <= self.rows.len(),
                text@ == joined(self@.take(i as int)),
            decreases self.rows.len() - i,
        {
            if i > 0 {
                text.push('\n');
            }
            let row = &self.rows[i];
            let ghost head = text@;
            let mut j: usize = 0;
            while j < row.len()
                invariant
                    j <= row.len(),
                    text@ == head + row@.take(j as int),
                decreases row.len() - j,
            {
                text.push(row[j]);
                assert(row@.take(j + 1) == row@.take(j as int).push(row@[j as int]));
                j += 1;
            }
            proof {
                assert(row@.take(row.len() as int) == row@);
                assert(self@.take(i + 1).drop_last() == self@.take(i as int));
                assert(self@.take(i + 1).last() == row@);
                if i == 0 {
                    assert(head + row@ == row@);
                }
            }
            i += 1;
        }
        assert(self@.take(self.rows.len() as int) == self@);
        text
    }
}

} // verus!
