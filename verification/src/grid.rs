//! The grid renderer: packs an ordered listing into a column-major
//! grid that fits a given terminal width, or falls back to one name
//! per line when at most one column fits or all entries fit in one
//! row. The renderer is pure: it turns entries and a width into lines.

use vstd::prelude::*;
use vstd::arithmetic::div_mod::{lemma_div_non_zero, lemma_fundamental_div_mod, lemma_mod_bound};
use vstd::arithmetic::mul::{lemma_mul_inequality, lemma_mul_upper_bound};

use crate::entry::{DisplayEntry, EntryView, views_of};

verus! {

/// The terminal width assumed when none can be determined.
pub open spec fn default_width() -> nat {
    80
}

/// The width the renderer is given: the queried width when the query
/// found one, else the default of 80 columns.
pub fn effective_width(queried: Option<usize>) -> (w: usize)
    ensures
        w as nat == match queried {
            Option::Some(q) => q as nat,
            Option::None => default_width(),
        },
{
    match queried {
        Option::Some(q) => q,
        Option::None => 80,
    }
}

/// The length of the longest name in the listing.
pub open spec fn max_name_len(es: Seq<EntryView>) -> nat
    decreases es.len(),
{
    if es.len() == 0 {
        0
    } else {
        let m = max_name_len(es.drop_last());
        if es.last().name.len() > m {
            es.last().name.len()
        } else {
            m
        }
    }
}

/// Every name fits in the longest length.
pub proof fn lemma_max_name_len_bound(es: Seq<EntryView>, i: int)
    requires
        0 <= i < es.len(),
    ensures
        es[i].name.len() <= max_name_len(es),
    decreases es.len(),
{
    if i < es.len() - 1 {
        lemma_max_name_len_bound(es.drop_last(), i);
    }
}

/// One column's width: the longest name plus a two-character gap.
pub open spec fn col_width_of(es: Seq<EntryView>) -> nat {
    max_name_len(es) + 2
}

/// How many columns fit: the width divided by the column width, and
/// never less than one.
pub open spec fn columns_of(es: Seq<EntryView>, width: nat) -> nat {
    if width / col_width_of(es) < 1 {
        1
    } else {
        width / col_width_of(es)
    }
}

/// How many rows a column-major grid of `count` entries needs.
pub open spec fn rows_of(count: nat, cols: nat) -> nat
    recommends
        cols > 0,
{
    count / cols + (if count % cols == 0 {
        0nat
    } else {
        1nat
    })
}

/// A run of space characters.
pub open spec fn spaces(n: nat) -> Seq<char> {
    Seq::new(n, |i: int| ' ')
}

/// What grid cell `(row, col)` contributes to its line: nothing when
/// the cell is past the last entry; otherwise the entry's displayed
/// name, padded with spaces up to the column width exactly when a
/// later column of the same row is also populated.
pub open spec fn cell_at(
    es: Seq<EntryView>,
    rows: nat,
    cols: nat,
    cw: nat,
    row: int,
    col: int,
) -> Seq<char> {
    let idx = col * (rows as int) + row;
    if !(0 <= idx < es.len()) {
        Seq::empty()
    } else {
        let e = es[idx];
        if col + 1 < cols && idx + rows < es.len() {
            e.rendered + spaces((cw - e.name.len()) as nat)
        } else {
            e.rendered
        }
    }
}

/// The first `ncols` cells of one grid line, concatenated.
pub open spec fn line_prefix(
    es: Seq<EntryView>,
    rows: nat,
    cols: nat,
    cw: nat,
    row: int,
    ncols: int,
) -> Seq<char>
    decreases ncols,
{
    if ncols <= 0 {
        Seq::empty()
    } else {
        line_prefix(es, rows, cols, cw, row, ncols - 1) + cell_at(es, rows, cols, cw, row, ncols - 1)
    }
}

/// One full grid line.
pub open spec fn grid_line(es: Seq<EntryView>, rows: nat, cols: nat, cw: nat, row: int) -> Seq<
    char,
> {
    line_prefix(es, rows, cols, cw, row, cols as int)
}

/// The complete output of the renderer: no lines for an empty
/// listing; one displayed name per line when at most one column fits
/// or all entries fit in one row; otherwise the column-major grid.
pub open spec fn grid_lines(es: Seq<EntryView>, width: nat) -> Seq<Seq<char>> {
    if es.len() == 0 {
        Seq::empty()
    } else {
        let cols = columns_of(es, width);
        if cols <= 1 || es.len() <= cols {
            Seq::new(es.len(), |i: int| es[i].rendered)
        } else {
            let cw = col_width_of(es);
            let rows = rows_of(es.len(), cols);
            Seq::new(rows as nat, |r: int| grid_line(es, rows, cols, cw, r))
        }
    }
}

/// Appends `k` spaces to a line.
fn push_spaces(line: &mut String, k: usize)
    ensures
        final(line)@ == old(line)@ + spaces(k as nat),
{
    proof {
        reveal_strlit(" ");
        assert(old(line)@ + spaces(0) =~= old(line)@);
    }
    let mut i: usize = 0;
    while i < k
        invariant
            0 <= i <= k,
            line@ == old(line)@ + spaces(i as nat),
        decreases k - i,
    {
        line.append(" ");
        proof {
            reveal_strlit(" ");
            assert(old(line)@ + spaces(i as nat) + " "@ =~= old(line)@ + spaces((i + 1) as nat));
        }
        i += 1;
    }
}

/// Renders the listing into output lines for a terminal of the given
/// width, as `grid_lines` describes.
pub fn render_grid(entries: &Vec<DisplayEntry>, term_width: usize) -> (lines: Vec<String>)
    requires
        max_name_len(views_of(entries@)) + 2 <= usize::MAX,
    ensures
        lines@.map_values(|s: String| s@) == grid_lines(views_of(entries@), term_width as nat),
{
    let ghost es = views_of(entries@);
    let n = entries.len();
    let mut lines: Vec<String> = Vec::new();
    if n == 0 {
        proof {
            assert(lines@.map_values(|s: String| s@) =~= grid_lines(es, term_width as nat));
        }
        return lines;
    }

    // the longest name
    let mut max_len: usize = 0;
    proof {
        assert(es.take(0) =~= Seq::<EntryView>::empty());
    }
    let mut k: usize = 0;
    while k < n
        invariant
            0 <= k <= n,
            n == entries@.len(),
            es == views_of(entries@),
            max_len as nat == max_name_len(es.take(k as int)),
        decreases n - k,
    {
        let l = entries[k].raw_name.as_str().unicode_len();
        proof {
            assert(es.take(k + 1).drop_last() =~= es.take(k as int));
            assert(es.take(k + 1).last() == es[k as int]);
            assert(es[k as int].name == entries@[k as int]@.name);
        }
        if l > max_len {
            max_len = l;
        }
        k += 1;
    }
    proof {
        assert(es.take(n as int) =~= es);
    }

    let cw = max_len + 2;
    let cols = if term_width / cw < 1 {
        1
    } else {
        term_width / cw
    };
    proof {
        assert(cw as nat == col_width_of(es));
        assert(cols as nat == columns_of(es, term_width as nat));
    }

    if cols <= 1 || n <= cols {
        let mut i: usize = 0;
        while i < n
            invariant
                0 <= i <= n,
                n == entries@.len(),
                es == views_of(entries@),
                lines@.len() == i,
                forall|m: int| 0 <= m < i ==> #[trigger] lines@[m]@ == es[m].rendered,
            decreases n - i,
        {
            lines.push(entries[i].rendered_name.clone());
            i += 1;
        }
        proof {
            assert(lines@.map_values(|s: String| s@) =~= grid_lines(es, term_width as nat));
        }
        lines
    } else {
        let q = n / cols;
        proof {
            lemma_fundamental_div_mod(n as int, cols as int);
            lemma_mod_bound(n as int, cols as int);
            lemma_mul_inequality(2, cols as int, q as int);
            lemma_div_non_zero(n as int, cols as int);
        }
        let rows = if n % cols == 0 {
            q
        } else {
            q + 1
        };
        proof {
            assert(rows as nat == rows_of(n as nat, cols as nat));
            assert(rows >= 1);
        }
        let mut row: usize = 0;
        while row < rows
            invariant
                0 <= row <= rows,
                n == entries@.len(),
                n >= 1,
                es == views_of(entries@),
                cw as nat == col_width_of(es),
                cols >= 2,
                rows >= 1,
                lines@.len() == row,
                forall|r: int|
                    0 <= r < row ==> #[trigger] lines@[r]@ == grid_line(
                        es,
                        rows as nat,
                        cols as nat,
                        cw as nat,
                        r,
                    ),
            decreases rows - row,
        {
            let mut line = String::new();
            let mut col: usize = 0;
            while col < cols
                invariant
                    0 <= col <= cols,
                    n == entries@.len(),
                    es == views_of(entries@),
                    cw as nat == col_width_of(es),
                    cols >= 2,
                    rows >= 1,
                    row < rows,
                    line@ == line_prefix(es, rows as nat, cols as nat, cw as nat, row as int, col as int),
                decreases cols - col,
            {
                proof {
                    lemma_mul_upper_bound(
                        col as int,
                        usize::MAX as int,
                        rows as int,
                        usize::MAX as int,
                    );
                    lemma_mul_upper_bound(
                        usize::MAX as int,
                        u64::MAX as int,
                        usize::MAX as int,
                        u64::MAX as int,
                    );
                }
                let idx128: u128 = (col as u128) * (rows as u128) + (row as u128);
                if idx128 < (n as u128) {
                    let idx = idx128 as usize;
                    proof {
                        assert(idx as int == col as int * rows as int + row as int);
                        assert(es[idx as int].rendered == entries@[idx as int]@.rendered);
                        lemma_max_name_len_bound(es, idx as int);
                    }
                    line.append(entries[idx].rendered_name.as_str());
                    let nm_len = entries[idx].raw_name.as_str().unicode_len();
                    if col + 1 < cols && idx128 + (rows as u128) < (n as u128) {
                        push_spaces(&mut line, cw - nm_len);
                    }
                    proof {
                        assert(line@ == line_prefix(
                            es,
                            rows as nat,
                            cols as nat,
                            cw as nat,
                            row as int,
                            col + 1,
                        ));
                    }
                } else {
                    proof {
                        assert(cell_at(es, rows as nat, cols as nat, cw as nat, row as int, col as int)
                            =~= Seq::<char>::empty());
                        assert(line_prefix(
                            es,
                            rows as nat,
                            cols as nat,
                            cw as nat,
                            row as int,
                            col + 1,
                        ) =~= line@);
                    }
                }
                col += 1;
            }
            lines.push(line);
            row += 1;
        }
        proof {
            assert(lines@.map_values(|s: String| s@) =~= grid_lines(es, term_width as nat));
        }
        lines
    }
}

/// All entries display as their bare names (styling off).
pub open spec fn plain_entries(es: Seq<EntryView>) -> bool {
    forall|i: int| 0 <= i < es.len() ==> (#[trigger] es[i]).rendered == es[i].name
}

proof fn lemma_line_prefix_len(
    es: Seq<EntryView>,
    rows: nat,
    cols: nat,
    cw: nat,
    row: int,
    ncols: int,
)
    requires
        plain_entries(es),
        cw == max_name_len(es) + 2,
        ncols >= 0,
    ensures
        line_prefix(es, rows, cols, cw, row, ncols).len() <= ncols * cw,
    decreases ncols,
{
    if ncols > 0 {
        lemma_line_prefix_len(es, rows, cols, cw, row, ncols - 1);
        let idx = (ncols - 1) * (rows as int) + row;
        if 0 <= idx < es.len() {
            lemma_max_name_len_bound(es, idx);
        }
        assert(cell_at(es, rows, cols, cw, row, ncols - 1).len() <= cw);
        assert((ncols - 1) * cw + cw == ncols * cw) by (nonlinear_arith);
    }
}

/// Law: when the terminal is at least one column wide, every output
/// line of an unstyled render has at most `width` characters.
pub proof fn lemma_grid_width_bound(es: Seq<EntryView>, width: nat)
    requires
        plain_entries(es),
        width >= col_width_of(es),
    ensures
        forall|r: int|
            0 <= r < grid_lines(es, width).len() ==> (#[trigger] grid_lines(es, width)[r]).len()
                <= width,
{
    let cw = col_width_of(es);
    let cols = columns_of(es, width);
    if es.len() == 0 {
    } else if cols <= 1 || es.len() <= cols {
        assert forall|r: int| 0 <= r < grid_lines(es, width).len() implies (#[trigger] grid_lines(
            es,
            width,
        )[r]).len() <= width by {
            lemma_max_name_len_bound(es, r);
        }
    } else {
        let rows = rows_of(es.len(), cols);
        assert forall|r: int| 0 <= r < grid_lines(es, width).len() implies (#[trigger] grid_lines(
            es,
            width,
        )[r]).len() <= width by {
            lemma_line_prefix_len(es, rows, cols, cw, r, cols as int);
            lemma_fundamental_div_mod(width as int, cw as int);
            lemma_mod_bound(width as int, cw as int);
            assert(cols * cw <= width);
        }
    }
}

/// Law: when only one column fits, the output is exactly one
/// displayed name per line, in listing order, with no padding.
pub proof fn lemma_single_column(es: Seq<EntryView>, width: nat)
    requires
        columns_of(es, width) <= 1,
    ensures
        grid_lines(es, width).len() == es.len(),
        forall|i: int| 0 <= i < es.len() ==> #[trigger] grid_lines(es, width)[i] == es[i].rendered,
{
}

/// Law: an empty listing renders as no output lines at all.
pub proof fn lemma_empty_listing(width: nat)
    ensures
        grid_lines(Seq::<EntryView>::empty(), width).len() == 0,
{
}

} // verus!
