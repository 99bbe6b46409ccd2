//! Rows of GFM tables.

use vstd::prelude::*;
use vstd::slice::slice_subrange;

use crate::text;

verus! {

/// A row without its border pipes. A pipe that is escaped is no border.
pub open spec fn without_borders(line: Seq<char>) -> Seq<char> {
    let t = text::trim_of(line);
    let s = if text::starts_with_char(t, '|') {
        t.skip(1)
    } else {
        t
    };
    if text::ends_with_char(s, '|') && !"\\|"@.is_suffix_of(s) {
        text::trim_end_of(s.drop_last())
    } else {
        s
    }
}

/// The cells of `s`, where `current` is what the first cell holds so far. A pipe
/// ends a cell; `\|` is a pipe within a cell.
pub open spec fn cells_from(s: Seq<char>, current: Seq<char>) -> Seq<Seq<char>>
    decreases s.len(),
{
    if s.len() == 0 {
        seq![text::trim_of(current)]
    } else if s[0] == '\\' && s.len() > 1 && s[1] == '|' {
        cells_from(s.skip(2), current.push('|'))
    } else if s[0] == '|' {
        seq![text::trim_of(current)] + cells_from(s.skip(1), seq![])
    } else {
        cells_from(s.skip(1), current.push(s[0]))
    }
}

/// The cells of a table row.
pub open spec fn row_cells(line: Seq<char>) -> Seq<Seq<char>> {
    cells_from(without_borders(line), seq![])
}

/// Whether `c` may stand in a separator row.
pub open spec fn is_separator_char(c: char) -> bool {
    c == '|' || c == '-' || c == ':' || c == ' '
}

/// The number of columns of a separator row: a row of pipes, dashes, colons and
/// spaces with a pipe and with a dash in each column.
pub open spec fn separator_columns(line: Seq<char>) -> Option<int> {
    let t = text::trim_of(line);
    let cells = row_cells(t);
    if t.contains('|') && t.contains('-') && (forall|i: int|
        0 <= i < t.len() ==> is_separator_char(#[trigger] t[i])) && (forall|i: int|
        0 <= i < cells.len() ==> (#[trigger] cells[i]).contains('-')) {
        Some(cells.len() as int)
    } else {
        None
    }
}

/// A row has at least one cell.
pub proof fn lemma_cells_nonempty(s: Seq<char>, current: Seq<char>)
    ensures
        cells_from(s, current).len() >= 1,
    decreases s.len(),
{
    if s.len() == 0 {
    } else if s[0] == '\\' && s.len() > 1 && s[1] == '|' {
        lemma_cells_nonempty(s.skip(2), current.push('|'));
    } else if s[0] == '|' {
    } else {
        lemma_cells_nonempty(s.skip(1), current.push(s[0]));
    }
}

fn strip_borders<'a>(line: &'a [char]) -> (r: &'a [char])
    ensures
        r@ == without_borders(line@),
{
    let t = text::trim(line);
    let s = if t.len() > 0 && t[0] == '|' {
        assert(t@.skip(1) =~= t@.subrange(1, t@.len() as int));
        slice_subrange(t, 1, t.len())
    } else {
        t
    };
    let n: usize = s.len();
    proof {
        reveal_strlit("\\|");
        if n >= 2 {
            assert(s@.subrange(n - 2, n as int) =~= "\\|"@ <==> s@[n - 2] == '\\' && s@[n - 1]
                == '|') by {
                assert(s@.subrange(n - 2, n as int)[0] == s@[n - 2]);
                assert(s@.subrange(n - 2, n as int)[1] == s@[n - 1]);
            }
        }
    }
    if n > 0 && s[n - 1] == '|' && !(n >= 2 && s[n - 2] == '\\') {
        assert(s@.drop_last() =~= s@.subrange(0, n - 1));
        text::trim_end(slice_subrange(s, 0, n - 1))
    } else {
        s
    }
}

pub(crate) fn split_row(line: &[char]) -> (r: Vec<String>)
    ensures
        text::texts(r@) == row_cells(line@),
{
    let s = strip_borders(line);
    let mut cells: Vec<String> = Vec::new();
    let mut current: Vec<char> = Vec::new();
    let mut i: usize = 0;
    assert(s@.skip(0) =~= s@);
    assert(text::texts(cells@) =~= seq![]);
    assert(seq![] + row_cells(line@) =~= row_cells(line@));
    while i < s.len()
        invariant
            i <= s.len(),
            text::texts(cells@) + cells_from(s@.skip(i as int), current@) == row_cells(line@),
        decreases s.len() - i,
    {
        let ghost rest = s@.skip(i as int);
        if s[i] == '\\' && i + 1 < s.len() && s[i + 1] == '|' {
            assert(rest.skip(2) =~= s@.skip(i + 2));
            current.push('|');
            i = i + 2;
        } else if s[i] == '|' {
            assert(rest.skip(1) =~= s@.skip(i + 1));
            let ghost before = text::texts(cells@);
            let cell = text::to_text(text::trim(current.as_slice()));
            let ghost cv = cell@;
            cells.push(cell);
            assert(text::texts(cells@) =~= before.push(cv));
            current = Vec::new();
            i = i + 1;
            assert(before + (seq![cv] + cells_from(s@.skip(i as int), seq![])) =~= before.push(cv)
                + cells_from(s@.skip(i as int), seq![]));
            assert(current@ =~= seq![]);
        } else {
            assert(rest.skip(1) =~= s@.skip(i + 1));
            current.push(s[i]);
            i = i + 1;
        }
    }
    let ghost before = text::texts(cells@);
    let cell = text::to_text(text::trim(current.as_slice()));
    let ghost cv = cell@;
    cells.push(cell);
    assert(text::texts(cells@) =~= before + seq![cv]);
    cells
}

/// Splits a table row by unescaped `|`, handling leading and trailing border
/// pipes. `\|` inside a cell gives a literal `|`.
pub fn split_table_row(line: &str) -> (r: Vec<String>)
    ensures
        text::texts(r@) == row_cells(line@),
{
    let chars = text::to_chars(line);
    split_row(chars.as_slice())
}

pub(crate) fn separator_in(line: &[char]) -> (r: Option<usize>)
    ensures
        text::opt_pos(r) == separator_columns(line@),
{
    let t = text::trim(line);
    if !text::contains_char(t, '|') || !text::contains_char(t, '-') {
        return None;
    }
    let mut i: usize = 0;
    while i < t.len()
        invariant
            i <= t.len(),
            t@ == text::trim_of(line@),
            forall|k: int| 0 <= k < i ==> is_separator_char(#[trigger] t@[k]),
        decreases t.len() - i,
    {
        let c = t[i];
        if !(c == '|' || c == '-' || c == ':' || c == ' ') {
            assert(!is_separator_char(t@[i as int]));
            return None;
        }
        i = i + 1;
    }
    let cells = split_row(t);
    let mut j: usize = 0;
    while j < cells.len()
        invariant
            j <= cells.len(),
            t@ == text::trim_of(line@),
            text::texts(cells@) == row_cells(t@),
            forall|k: int| 0 <= k < j ==> (#[trigger] row_cells(t@)[k]).contains('-'),
        decreases cells.len() - j,
    {
        let chars = text::to_chars(cells[j].as_str());
        assert(row_cells(t@)[j as int] == cells@[j as int]@);
        if !text::contains_char(chars.as_slice(), '-') {
            return None;
        }
        j = j + 1;
    }
    Some(cells.len())
}

/// The number of columns of a GFM separator row, if `line` is one.
pub fn scan_table_separator(line: &str) -> (r: Option<usize>)
    ensures
        text::opt_pos(r) == separator_columns(line@),
{
    let chars = text::to_chars(line);
    separator_in(chars.as_slice())
}

} // verus!
