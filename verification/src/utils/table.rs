//! Unicode box-drawing tables.
use vstd::prelude::*;

use crate::report::join;
use crate::text::{chars_of, push_char, push_str};
use vstd::utf8::encode_utf8;

verus! {

/// The byte length of a header (`str::len`).
pub open spec fn byte_len(s: Seq<char>) -> int {
    encode_utf8(s).len() as int
}

/// The width of column `i` over the first `k` rows: the widest of the
/// header's byte length and the cells' character counts.
pub open spec fn col_width(headers: Seq<Seq<char>>, rows: Seq<Seq<Seq<char>>>, i: int, k: int) -> int
    decreases k,
{
    if k <= 0 {
        byte_len(headers[i])
    } else {
        let w = col_width(headers, rows, i, k - 1);
        let row = rows[k - 1];
        if i < row.len() && row[i].len() > w {
            row[i].len() as int
        } else {
            w
        }
    }
}

/// The column widths.
pub open spec fn table_widths(headers: Seq<Seq<char>>, rows: Seq<Seq<Seq<char>>>) -> Seq<int> {
    Seq::new(headers.len(), |i: int| col_width(headers, rows, i, rows.len() as int))
}

/// `n` copies of `c`.
pub open spec fn repeat(c: char, n: int) -> Seq<char> {
    Seq::new(if n < 0 { 0 } else { n } as nat, |_i: int| c)
}

/// A horizontal rule segment for a column of width `w`.
pub open spec fn rule(w: int) -> Seq<char> {
    repeat('─', w + 2)
}

/// A full horizontal rule: `left`, the segments separated by `mid`, `right`.
pub open spec fn rule_line(ws: Seq<int>, left: char, mid: char, right: char) -> Seq<char> {
    seq![left] + join(Seq::new(ws.len(), |i: int| rule(ws[i])), seq![mid]) + seq![right]
}

/// The cell of `row` in column `i` (empty when the row is shorter).
pub open spec fn cell(row: Seq<Seq<char>>, i: int) -> Seq<char> {
    if i < row.len() { row[i] } else { Seq::empty() }
}

/// One padded cell followed by its right border.
pub open spec fn cell_text(c: Seq<char>, w: int) -> Seq<char> {
    let pad = if w > c.len() { w - c.len() } else { 0 };
    seq![' '] + c + repeat(' ', pad + 1) + seq!['│']
}

/// A table row over the first `k` columns.
pub open spec fn row_prefix(row: Seq<Seq<char>>, ws: Seq<int>, k: int) -> Seq<char>
    decreases k,
{
    if k <= 0 {
        seq!['│']
    } else {
        row_prefix(row, ws, k - 1) + cell_text(cell(row, k - 1), ws[k - 1])
    }
}

/// A whole table row.
pub open spec fn row_text(row: Seq<Seq<char>>, ws: Seq<int>) -> Seq<char> {
    row_prefix(row, ws, ws.len() as int)
}

/// The whole table: top rule, header row, separator, the rows, bottom rule.
pub open spec fn table_text(headers: Seq<Seq<char>>, rows: Seq<Seq<Seq<char>>>) -> Seq<char> {
    let ws = table_widths(headers, rows);
    rule_line(ws, '┌', '┬', '┐') + seq!['\n'] + row_text(headers, ws) + seq!['\n'] + rule_line(ws, '┼', '┼', '┼')
        + seq!['\n'] + join(Seq::new(rows.len(), |r: int| row_text(rows[r], ws)), seq!['\n']) + if rows.len() > 0 {
        seq!['\n']
    } else {
        Seq::empty()
    } + rule_line(ws, '└', '┴', '┘')
}

/// The headers as character sequences.
pub open spec fn header_views(headers: Seq<&str>) -> Seq<Seq<char>> {
    Seq::new(headers.len(), |i: int| headers[i]@)
}

/// The rows as sequences of character sequences.
pub open spec fn row_views(rows: Seq<Vec<String>>) -> Seq<Seq<Seq<char>>> {
    Seq::new(rows.len(), |r: int| Seq::new(rows[r]@.len(), |i: int| rows[r]@[i]@))
}

/// Every header and cell is shorter than `isize::MAX`, as every Rust string is.
pub open spec fn table_fits(headers: Seq<Seq<char>>, rows: Seq<Seq<Seq<char>>>) -> bool {
    &&& forall|i: int| 0 <= i < headers.len() ==> byte_len(#[trigger] headers[i]) <= isize::MAX
    &&& forall|r: int, i: int| 0 <= r < rows.len() && 0 <= i < rows[r].len() ==> #[trigger] rows[r][i].len() <= isize::MAX
}

proof fn lemma_col_width_bound(headers: Seq<Seq<char>>, rows: Seq<Seq<Seq<char>>>, i: int, k: int)
    requires
        table_fits(headers, rows),
        0 <= i < headers.len(),
        k <= rows.len(),
    ensures
        0 <= col_width(headers, rows, i, k) <= isize::MAX,
    decreases k,
{
    if k > 0 {
        lemma_col_width_bound(headers, rows, i, k - 1);
    }
}

/// The column widths: each header's byte length or its widest cell's
/// character count, whichever is larger.
fn widths(headers: &[&str], rows: &[Vec<String>]) -> (w: Vec<usize>)
    requires
        table_fits(header_views(headers@), row_views(rows@)),
    ensures
        w@.len() == headers@.len(),
        forall|i: int| 0 <= i < w@.len() ==> #[trigger] w@[i] as int == table_widths(header_views(headers@), row_views(rows@))[i],
        forall|i: int| 0 <= i < w@.len() ==> #[trigger] w@[i] <= isize::MAX,
{
    let ghost hv = header_views(headers@);
    let ghost rv = row_views(rows@);
    let mut w: Vec<usize> = Vec::new();
    let mut i: usize = 0;
    while i < headers.len()
        invariant
            i <= headers@.len(),
            hv == header_views(headers@),
            rv == row_views(rows@),
            table_fits(hv, rv),
            w@.len() == i,
            forall|j: int| 0 <= j < i ==> #[trigger] w@[j] as int == col_width(hv, rv, j, 0),
        decreases headers@.len() - i,
    {
        proof {
            assert(hv[i as int] == headers@[i as int]@);
            assert(byte_len(hv[i as int]) <= isize::MAX);
        }
        w.push(headers[i].len());
        i = i + 1;
    }
    let mut r: usize = 0;
    while r < rows.len()
        invariant
            r <= rows@.len(),
            hv == header_views(headers@),
            rv == row_views(rows@),
            table_fits(hv, rv),
            w@.len() == headers@.len(),
            forall|j: int| 0 <= j < w@.len() ==> #[trigger] w@[j] as int == col_width(hv, rv, j, r as int),
        decreases rows@.len() - r,
    {
        let row = &rows[r];
        let mut c: usize = 0;
        while c < row.len()
            invariant
                r < rows@.len(),
                row == rows@[r as int],
                c <= row@.len(),
                hv == header_views(headers@),
                rv == row_views(rows@),
                table_fits(hv, rv),
                w@.len() == headers@.len(),
                forall|j: int| 0 <= j < w@.len() ==> #[trigger] w@[j] as int == if j < c {
                    col_width(hv, rv, j, r + 1)
                } else {
                    col_width(hv, rv, j, r as int)
                },
            decreases row@.len() - c,
        {
            if c < w.len() {
                let count = chars_of(row[c].as_str()).len();
                proof {
                    assert(rv[r as int][c as int] == row@[c as int]@);
                }
                if count > w[c] {
                    w.set(c, count);
                }
            }
            c = c + 1;
        }
        proof {
            assert forall|j: int| 0 <= j < w@.len() implies #[trigger] w@[j] as int == col_width(hv, rv, j, r + 1) by {
                if j >= row@.len() {
                    assert(rv[r as int].len() == row@.len());
                }
            }
        }
        r = r + 1;
    }
    proof {
        assert forall|j: int| 0 <= j < w@.len() implies #[trigger] w@[j] <= isize::MAX by {
            lemma_col_width_bound(hv, rv, j, rows@.len() as int);
        }
    }
    w
}

/// Appends `n` copies of `c`.
fn push_repeat(out: &mut String, c: char, n: usize)
    ensures
        final(out)@ == old(out)@ + repeat(c, n as int),
{
    let ghost o0 = out@;
    let mut k: usize = 0;
    while k < n
        invariant
            k <= n,
            out@ == o0 + repeat(c, k as int),
        decreases n - k,
    {
        push_char(out, c);
        assert(repeat(c, k + 1) =~= repeat(c, k as int).push(c));
        k = k + 1;
    }
}

/// Appends a horizontal rule.
fn push_rule_line(out: &mut String, ws: &Vec<usize>, left: char, mid: char, right: char, Ghost(wsi): Ghost<Seq<int>>)
    requires
        wsi.len() == ws@.len(),
        forall|i: int| 0 <= i < ws@.len() ==> #[trigger] ws@[i] as int == wsi[i],
        forall|i: int| 0 <= i < ws@.len() ==> #[trigger] ws@[i] <= isize::MAX,
    ensures
        final(out)@ == old(out)@ + rule_line(wsi, left, mid, right),
{
    let ghost o0 = out@;
    let ghost parts = Seq::new(wsi.len(), |i: int| rule(wsi[i]));
    push_char(out, left);
    let mut i: usize = 0;
    while i < ws.len()
        invariant
            i <= ws@.len(),
            wsi.len() == ws@.len(),
            parts == Seq::new(wsi.len(), |i: int| rule(wsi[i])),
            forall|j: int| 0 <= j < ws@.len() ==> #[trigger] ws@[j] as int == wsi[j],
            forall|j: int| 0 <= j < ws@.len() ==> #[trigger] ws@[j] <= isize::MAX,
            out@ == o0 + seq![left] + join(parts.take(i as int), seq![mid]),
        decreases ws@.len() - i,
    {
        if i > 0 {
            push_char(out, mid);
        }
        push_repeat(out, '─', ws[i] + 2);
        proof {
            assert(parts.take(i + 1) =~= parts.take(i as int).push(parts[i as int]));
            crate::report::lemma_join_push(parts.take(i as int), seq![mid], parts[i as int]);
        }
        i = i + 1;
    }
    push_char(out, right);
    assert(parts.take(ws@.len() as int) =~= parts);
}

/// Appends one table row.
fn format_row(out: &mut String, row: &[String], ws: &Vec<usize>, Ghost(wsi): Ghost<Seq<int>>)
    requires
        wsi.len() == ws@.len(),
        forall|i: int| 0 <= i < ws@.len() ==> #[trigger] ws@[i] as int == wsi[i],
        forall|i: int| 0 <= i < ws@.len() ==> #[trigger] ws@[i] <= isize::MAX,
    ensures
        final(out)@ == old(out)@ + row_text(Seq::new(row@.len(), |i: int| row@[i]@), wsi),
{
    let ghost rv = Seq::new(row@.len(), |i: int| row@[i]@);
    let ghost o0 = out@;
    push_char(out, '│');
    let mut i: usize = 0;
    while i < ws.len()
        invariant
            i <= ws@.len(),
            wsi.len() == ws@.len(),
            rv == Seq::new(row@.len(), |i: int| row@[i]@),
            forall|j: int| 0 <= j < ws@.len() ==> #[trigger] ws@[j] as int == wsi[j],
            forall|j: int| 0 <= j < ws@.len() ==> #[trigger] ws@[j] <= isize::MAX,
            out@ == o0 + row_prefix(rv, wsi, i as int),
        decreases ws@.len() - i,
    {
        let width = ws[i];
        let cell_chars: Vec<char> = if i < row.len() { chars_of(row[i].as_str()) } else { Vec::new() };
        proof {
            if i < row@.len() {
                assert(rv[i as int] == row@[i as int]@);
            }
            assert(cell_chars@ == cell(rv, i as int));
        }
        let count = cell_chars.len();
        let pad: usize = if width > count { width - count } else { 0 };
        push_char(out, ' ');
        crate::text::push_chars(out, &cell_chars);
        push_repeat(out, ' ', pad + 1);
        push_char(out, '│');
        proof {
            assert(out@ =~= o0 + row_prefix(rv, wsi, i + 1));
        }
        i = i + 1;
    }
}

/// Renders a bordered table with a header row.
pub fn render_table(headers: &[&str], rows: &[Vec<String>]) -> (out: String)
    requires
        table_fits(header_views(headers@), row_views(rows@)),
    ensures
        out@ == table_text(header_views(headers@), row_views(rows@)),
{
    let ghost hv = header_views(headers@);
    let ghost rv = row_views(rows@);
    let ghost wsi = table_widths(hv, rv);
    let ws = widths(headers, rows);
    let mut out = String::new();
    push_rule_line(&mut out, &ws, '┌', '┬', '┐', Ghost(wsi));
    push_char(&mut out, '\n');
    let mut header_cells: Vec<String> = Vec::new();
    let mut h: usize = 0;
    while h < headers.len()
        invariant
            h <= headers@.len(),
            header_cells@.len() == h,
            forall|j: int| 0 <= j < h ==> #[trigger] header_cells@[j]@ == headers@[j]@,
        decreases headers@.len() - h,
    {
        header_cells.push(crate::text::owned(headers[h]));
        h = h + 1;
    }
    proof {
        assert(Seq::new(header_cells@.len(), |i: int| header_cells@[i]@) =~= hv);
    }
    format_row(&mut out, header_cells.as_slice(), &ws, Ghost(wsi));
    push_char(&mut out, '\n');
    push_rule_line(&mut out, &ws, '┼', '┼', '┼', Ghost(wsi));
    push_char(&mut out, '\n');
    let ghost head = out@;
    let ghost lines = Seq::new(rv.len(), |r: int| row_text(rv[r], wsi));
    let mut r: usize = 0;
    while r < rows.len()
        invariant
            r <= rows@.len(),
            rv == row_views(rows@),
            lines == Seq::new(rv.len(), |r: int| row_text(rv[r], wsi)),
            wsi.len() == ws@.len(),
            forall|i: int| 0 <= i < ws@.len() ==> #[trigger] ws@[i] as int == wsi[i],
            forall|i: int| 0 <= i < ws@.len() ==> #[trigger] ws@[i] <= isize::MAX,
            out@ == head + join(lines.take(r as int), seq!['\n']),
        decreases rows@.len() - r,
    {
        let ghost before = out@;
        if r > 0 {
            push_char(&mut out, '\n');
        }
        format_row(&mut out, rows[r].as_slice(), &ws, Ghost(wsi));
        proof {
            assert(Seq::new(rows@[r as int]@.len(), |i: int| rows@[r as int]@[i]@) =~= rv[r as int]);
            assert(lines.take(r + 1) =~= lines.take(r as int).push(lines[r as int]));
            crate::report::lemma_join_push(lines.take(r as int), seq!['\n'], lines[r as int]);
        }
        r = r + 1;
    }
    assert(lines.take(rows@.len() as int) =~= lines);
    if rows.len() > 0 {
        push_char(&mut out, '\n');
    }
    push_rule_line(&mut out, &ws, '└', '┴', '┘', Ghost(wsi));
    assert(out@ =~= table_text(hv, rv));
    out
}

} // verus!
