//! Library-wide laws: every line of one table renders to the same
//! display width, and the output holds exactly one line per rendered
//! row, plus the header and separator lines when a header is present.

use vstd::prelude::*;
use crate::align::Alignment;
use crate::render::{
    dashes, padded_cell, rendered_row, rendered_sep, row_cells, sep_cells, spaces,
};
use crate::table::{
    base_widths, cat_rows, columns_cells, lemma_col_width_ge, lemma_col_width_nonneg,
    lemma_max_cols_ge, max_cols, normalize, pad_row, spec_table, table_widths, widen,
};
use crate::width::{char_width, lemma_seq_width_add, lemma_seq_width_single, seq_width};

verus! {

pub proof fn lemma_spaces_width(n: int)
    ensures
        n >= 0 ==> seq_width(spaces(n)) == n,
        n < 0 ==> seq_width(spaces(n)) == 0,
    decreases (if n > 0 {
        n
    } else {
        0
    }),
{
    if n > 0 {
        lemma_spaces_width(n - 1);
        assert(spaces(n).drop_last() =~= spaces(n - 1));
        assert(spaces(n).last() == ' ');
    }
}

pub proof fn lemma_dashes_width(n: int)
    ensures
        n >= 0 ==> seq_width(dashes(n)) == n,
        n < 0 ==> seq_width(dashes(n)) == 0,
    decreases (if n > 0 {
        n
    } else {
        0
    }),
{
    if n > 0 {
        lemma_dashes_width(n - 1);
        assert(dashes(n).drop_last() =~= dashes(n - 1));
        assert(dashes(n).last() == '-');
    }
}

/// A cell that fits its column is padded to exactly the column's width,
/// whatever its alignment: the padding never comes out negative.
pub proof fn lemma_padded_cell_width(cell: Seq<char>, w: int, a: Alignment)
    requires
        seq_width(cell) <= w,
    ensures
        seq_width(padded_cell(cell, w, a)) == w,
{
    let p = w - seq_width(cell);
    lemma_spaces_width(p);
    lemma_spaces_width(p / 2);
    lemma_spaces_width(p - p / 2);
    match a {
        Alignment::Left => {
            lemma_seq_width_add(cell, spaces(p));
        },
        Alignment::Right => {
            lemma_seq_width_add(spaces(p), cell);
        },
        Alignment::Center => {
            lemma_seq_width_add(spaces(p / 2), cell);
            lemma_seq_width_add(spaces(p / 2) + cell, spaces(p - p / 2));
        },
    }
}

/// The display width of one rendered line's cells: every column
/// contributes its width plus the two framing spaces and the border.
pub open spec fn cells_width(widths: Seq<int>) -> int
    decreases widths.len(),
{
    if widths.len() == 0 {
        0
    } else {
        widths[0] + 3 + cells_width(widths.skip(1))
    }
}

/// The display width every line of a table with these column widths
/// renders to.
pub open spec fn line_width(widths: Seq<int>) -> int {
    1 + cells_width(widths)
}

proof fn lemma_row_cells_width(
    cells: Seq<Seq<char>>,
    widths: Seq<int>,
    aligns: Seq<(usize, Alignment)>,
    col: int,
)
    requires
        cells.len() == widths.len(),
        forall|j: int| 0 <= j < cells.len() ==> seq_width(#[trigger] cells[j]) <= widths[j],
    ensures
        seq_width(row_cells(cells, widths, aligns, col)) == cells_width(widths),
    decreases cells.len(),
{
    if cells.len() == 0 {
    } else {
        let a = crate::align::align_in(aligns, col);
        lemma_padded_cell_width(cells[0], widths[0], a);
        assert(forall|j: int|
            0 <= j < cells.skip(1).len() ==> seq_width(#[trigger] cells.skip(1)[j]) <= widths.skip(
                1,
            )[j]) by {
            assert(forall|j: int|
                0 <= j < cells.skip(1).len() ==> cells.skip(1)[j] == cells[j + 1]);
            assert(forall|j: int|
                0 <= j < widths.skip(1).len() ==> widths.skip(1)[j] == widths[j + 1]);
        }
        lemma_row_cells_width(cells.skip(1), widths.skip(1), aligns, col + 1);
        let seg = seq![' '] + padded_cell(cells[0], widths[0], a) + seq![' ', '|'];
        lemma_seq_width_add(seq![' '], padded_cell(cells[0], widths[0], a));
        lemma_seq_width_add(seq![' '] + padded_cell(cells[0], widths[0], a), seq![' ', '|']);
        lemma_seq_width_add(seg, row_cells(cells.skip(1), widths.skip(1), aligns, col + 1));
        assert(seq_width(seq![' ']) == 1) by {
            lemma_seq_width_single(' ');
        }
        assert(seq_width(seq![' ', '|']) == 2) by {
            assert(seq![' ', '|'] =~= seq![' '] + seq!['|']);
            lemma_seq_width_add(seq![' '], seq!['|']);
            lemma_seq_width_single(' ');
            lemma_seq_width_single('|');
        }
    }
}

/// Fixed-width invariant, for data and header lines: a row whose cells
/// all fit their columns renders to exactly `line_width(widths)` display
/// columns, whatever the cells and the alignments; so any two rows of
/// one table render to lines of equal display width.
pub proof fn lemma_rendered_row_width(
    cells: Seq<Seq<char>>,
    widths: Seq<int>,
    aligns: Seq<(usize, Alignment)>,
)
    requires
        cells.len() == widths.len(),
        forall|j: int| 0 <= j < cells.len() ==> seq_width(#[trigger] cells[j]) <= widths[j],
    ensures
        seq_width(rendered_row(cells, widths, aligns)) == line_width(widths),
{
    lemma_row_cells_width(cells, widths, aligns, 0);
    lemma_seq_width_add(seq!['|'], row_cells(cells, widths, aligns, 0));
    lemma_seq_width_add(seq!['|'] + row_cells(cells, widths, aligns, 0), seq!['\n']);
    assert(seq_width(seq!['|']) == 1) by {
        lemma_seq_width_single('|');
    }
    assert(seq_width(seq!['\n']) == 0) by {
        lemma_seq_width_single('\n');
        assert(char_width('\n') == 0);
    }
}

proof fn lemma_sep_cells_width(widths: Seq<int>)
    requires
        forall|j: int| 0 <= j < widths.len() ==> widths[j] >= 0,
    ensures
        seq_width(sep_cells(widths)) == cells_width(widths),
    decreases widths.len(),
{
    if widths.len() > 0 {
        assert(forall|j: int|
            0 <= j < widths.skip(1).len() ==> widths.skip(1)[j] == widths[j + 1]);
        lemma_sep_cells_width(widths.skip(1));
        lemma_dashes_width(widths[0] + 2);
        lemma_seq_width_add(dashes(widths[0] + 2), seq!['+']);
        lemma_seq_width_add(dashes(widths[0] + 2) + seq!['+'], sep_cells(widths.skip(1)));
        assert(seq_width(seq!['+']) == 1) by {
            lemma_seq_width_single('+');
        }
    }
}

/// Fixed-width invariant, for the separator line: it renders to the same
/// display width as every cell line of the table, so it aligns exactly
/// under the `|`-delimited cell boundaries.
pub proof fn lemma_rendered_sep_width(widths: Seq<int>)
    requires
        forall|j: int| 0 <= j < widths.len() ==> widths[j] >= 0,
    ensures
        seq_width(rendered_sep(widths)) == line_width(widths),
{
    lemma_sep_cells_width(widths);
    lemma_seq_width_add(seq!['+'], sep_cells(widths));
    lemma_seq_width_add(seq!['+'] + sep_cells(widths), seq!['\n']);
    assert(seq_width(seq!['+']) == 1) by {
        lemma_seq_width_single('+');
    }
    assert(seq_width(seq!['\n']) == 0) by {
        lemma_seq_width_single('\n');
        assert(char_width('\n') == 0);
    }
}

/// Fixed-width invariant of a whole table: every line the table renders
/// — the header (under the first-row designation it is row 0 of the
/// normalized rows, covered by the quantifier), the separator under it,
/// and every data row — has the same display width, `line_width` of the
/// table's final width vector. With explicit header names the law asks
/// that the list have as many entries as the table has columns: a
/// shorter or longer list renders a header line of another width.
pub proof fn lemma_table_lines_uniform_width(
    rows: Seq<Seq<Seq<char>>>,
    header: bool,
    columns: Option<Seq<char>>,
    aligns: Seq<(usize, Alignment)>,
)
    requires
        rows.len() > 0,
        (match columns {
            Some(c) => columns_cells(c).len() == max_cols(rows),
            None => true,
        }),
    ensures
        forall|i: int|
            0 <= i < rows.len() ==> seq_width(
                rendered_row(
                    #[trigger] normalize(rows, max_cols(rows))[i],
                    table_widths(rows, header, columns),
                    aligns,
                ),
            ) == line_width(table_widths(rows, header, columns)),
        columns matches Some(c) ==> seq_width(
            rendered_row(columns_cells(c), table_widths(rows, header, columns), aligns),
        ) == line_width(table_widths(rows, header, columns)),
        seq_width(rendered_sep(table_widths(rows, header, columns))) == line_width(
            table_widths(rows, header, columns),
        ),
{
    let n = max_cols(rows);
    let norm = normalize(rows, n);
    let base = base_widths(norm, n);
    let w = table_widths(rows, header, columns);
    lemma_max_cols_ge(rows, 0);
    assert(w.len() == n);
    assert forall|j: int| 0 <= j < w.len() implies w[j] >= 0 && w[j] >= base[j] by {
        lemma_col_width_nonneg(norm, j);
        assert(base[j] == crate::table::col_width(norm, j));
    }
    assert forall|i: int|
        0 <= i < rows.len() implies seq_width(
        rendered_row(#[trigger] norm[i], w, aligns),
    ) == line_width(w) by {
        assert(norm[i] == pad_row(rows[i], n));
        assert(norm[i].len() == n);
        assert forall|j: int| 0 <= j < norm[i].len() implies seq_width(#[trigger] norm[i][j])
            <= w[j] by {
            lemma_col_width_ge(norm, i, j);
            assert(base[j] == crate::table::col_width(norm, j));
        }
        lemma_rendered_row_width(norm[i], w, aligns);
    }
    match columns {
        Some(c) => {
            let hdr = columns_cells(c);
            assert forall|j: int| 0 <= j < hdr.len() implies seq_width(#[trigger] hdr[j])
                <= w[j] by {
                lemma_col_width_nonneg(norm, j);
                assert(base[j] == crate::table::col_width(norm, j));
                assert(w[j] == widen(base, hdr)[j]);
            }
            lemma_rendered_row_width(hdr, w, aligns);
        },
        None => {},
    }
    lemma_rendered_sep_width(w);
}

/// Number of line terminators in a string.
pub open spec fn newline_count(s: Seq<char>) -> nat
    decreases s.len(),
{
    if s.len() == 0 {
        0
    } else {
        newline_count(s.drop_last()) + (if s.last() == '\n' {
            1nat
        } else {
            0nat
        })
    }
}

/// Whether a string holds no line terminator.
pub open spec fn no_newline(s: Seq<char>) -> bool {
    forall|i: int| 0 <= i < s.len() ==> s[i] != '\n'
}

pub proof fn lemma_newline_count_add(a: Seq<char>, b: Seq<char>)
    ensures
        newline_count(a + b) == newline_count(a) + newline_count(b),
    decreases b.len(),
{
    if b.len() == 0 {
        assert(a + b =~= a);
    } else {
        lemma_newline_count_add(a, b.drop_last());
        assert((a + b).drop_last() =~= a + b.drop_last());
        assert((a + b).last() == b.last());
    }
}

proof fn lemma_no_newline_count(s: Seq<char>)
    requires
        no_newline(s),
    ensures
        newline_count(s) == 0,
    decreases s.len(),
{
    if s.len() > 0 {
        assert(no_newline(s.drop_last()));
        lemma_no_newline_count(s.drop_last());
    }
}

proof fn lemma_spaces_clean(n: int)
    ensures
        no_newline(spaces(n)),
    decreases (if n > 0 {
        n
    } else {
        0
    }),
{
    if n > 0 {
        lemma_spaces_clean(n - 1);
    }
}

proof fn lemma_dashes_clean(n: int)
    ensures
        no_newline(dashes(n)),
    decreases (if n > 0 {
        n
    } else {
        0
    }),
{
    if n > 0 {
        lemma_dashes_clean(n - 1);
    }
}

proof fn lemma_concat_clean(a: Seq<char>, b: Seq<char>)
    requires
        no_newline(a),
        no_newline(b),
    ensures
        no_newline(a + b),
{
    assert(forall|i: int| 0 <= i < a.len() ==> (a + b)[i] == a[i]);
    assert(forall|i: int| a.len() <= i < a.len() + b.len() ==> (a + b)[i] == b[i - a.len()]);
}

proof fn lemma_row_cells_clean(
    cells: Seq<Seq<char>>,
    widths: Seq<int>,
    aligns: Seq<(usize, Alignment)>,
    col: int,
)
    requires
        forall|j: int| 0 <= j < cells.len() ==> no_newline(#[trigger] cells[j]),
    ensures
        no_newline(row_cells(cells, widths, aligns, col)),
    decreases cells.len(),
{
    if cells.len() == 0 || widths.len() == 0 {
    } else {
        let a = crate::align::align_in(aligns, col);
        let p = widths[0] - seq_width(cells[0]);
        lemma_spaces_clean(p);
        lemma_spaces_clean(p / 2);
        lemma_spaces_clean(p - p / 2);
        assert(no_newline(padded_cell(cells[0], widths[0], a))) by {
            match a {
                Alignment::Left => {
                    lemma_concat_clean(cells[0], spaces(p));
                },
                Alignment::Right => {
                    lemma_concat_clean(spaces(p), cells[0]);
                },
                Alignment::Center => {
                    lemma_concat_clean(spaces(p / 2), cells[0]);
                    lemma_concat_clean(spaces(p / 2) + cells[0], spaces(p - p / 2));
                },
            }
        }
        assert(forall|j: int|
            0 <= j < cells.skip(1).len() ==> no_newline(#[trigger] cells.skip(1)[j])) by {
            assert(forall|j: int|
                0 <= j < cells.skip(1).len() ==> cells.skip(1)[j] == cells[j + 1]);
        }
        lemma_row_cells_clean(cells.skip(1), widths.skip(1), aligns, col + 1);
        assert(no_newline(seq![' ']));
        assert(no_newline(seq![' ', '|']));
        lemma_concat_clean(seq![' '], padded_cell(cells[0], widths[0], a));
        lemma_concat_clean(seq![' '] + padded_cell(cells[0], widths[0], a), seq![' ', '|']);
        lemma_concat_clean(
            seq![' '] + padded_cell(cells[0], widths[0], a) + seq![' ', '|'],
            row_cells(cells.skip(1), widths.skip(1), aligns, col + 1),
        );
    }
}

/// A row whose cells hold no line terminator renders to exactly one
/// line: its terminator is the only one in the rendered text.
pub proof fn lemma_rendered_row_lines(
    cells: Seq<Seq<char>>,
    widths: Seq<int>,
    aligns: Seq<(usize, Alignment)>,
)
    requires
        forall|j: int| 0 <= j < cells.len() ==> no_newline(#[trigger] cells[j]),
    ensures
        newline_count(rendered_row(cells, widths, aligns)) == 1,
{
    lemma_row_cells_clean(cells, widths, aligns, 0);
    assert(no_newline(seq!['|']));
    lemma_concat_clean(seq!['|'], row_cells(cells, widths, aligns, 0));
    lemma_no_newline_count(seq!['|'] + row_cells(cells, widths, aligns, 0));
    lemma_newline_count_add(seq!['|'] + row_cells(cells, widths, aligns, 0), seq!['\n']);
    assert(newline_count(seq!['\n']) == 1) by {
        let t = seq!['\n'];
        assert(t.len() == 1);
        assert(t.last() == '\n');
        assert(t.drop_last() =~= Seq::<char>::empty());
        assert(newline_count(Seq::<char>::empty()) == 0);
        assert(newline_count(t) == newline_count(t.drop_last()) + 1);
    }
}

proof fn lemma_sep_cells_clean(widths: Seq<int>)
    ensures
        no_newline(sep_cells(widths)),
    decreases widths.len(),
{
    if widths.len() > 0 {
        lemma_sep_cells_clean(widths.skip(1));
        lemma_dashes_clean(widths[0] + 2);
        assert(no_newline(seq!['+']));
        lemma_concat_clean(dashes(widths[0] + 2), seq!['+']);
        lemma_concat_clean(dashes(widths[0] + 2) + seq!['+'], sep_cells(widths.skip(1)));
    }
}

/// The separator renders to exactly one line.
pub proof fn lemma_rendered_sep_lines(widths: Seq<int>)
    ensures
        newline_count(rendered_sep(widths)) == 1,
{
    lemma_sep_cells_clean(widths);
    assert(no_newline(seq!['+']));
    lemma_concat_clean(seq!['+'], sep_cells(widths));
    lemma_no_newline_count(seq!['+'] + sep_cells(widths));
    lemma_newline_count_add(seq!['+'] + sep_cells(widths), seq!['\n']);
    assert(newline_count(seq!['\n']) == 1) by {
        let t = seq!['\n'];
        assert(t.len() == 1);
        assert(t.last() == '\n');
        assert(t.drop_last() =~= Seq::<char>::empty());
        assert(newline_count(Seq::<char>::empty()) == 0);
        assert(newline_count(t) == newline_count(t.drop_last()) + 1);
    }
}

/// Whether no cell of any row holds a line terminator.
pub open spec fn cells_clean(rows: Seq<Seq<Seq<char>>>) -> bool {
    forall|i: int, j: int|
        0 <= i < rows.len() && 0 <= j < rows[i].len() ==> no_newline(#[trigger] rows[i][j])
}

proof fn lemma_cat_rows_lines(
    rows: Seq<Seq<Seq<char>>>,
    widths: Seq<int>,
    aligns: Seq<(usize, Alignment)>,
)
    requires
        cells_clean(rows),
    ensures
        newline_count(cat_rows(rows, widths, aligns)) == rows.len(),
    decreases rows.len(),
{
    if rows.len() > 0 {
        assert(cells_clean(rows.drop_last())) by {
            assert(forall|i: int|
                0 <= i < rows.len() - 1 ==> #[trigger] rows.drop_last()[i] == rows[i]);
        }
        lemma_cat_rows_lines(rows.drop_last(), widths, aligns);
        assert(forall|j: int|
            0 <= j < rows.last().len() ==> no_newline(#[trigger] rows.last()[j])) by {
            assert(rows.last() == rows[rows.len() - 1]);
        }
        lemma_rendered_row_lines(rows.last(), widths, aligns);
        lemma_newline_count_add(
            cat_rows(rows.drop_last(), widths, aligns),
            rendered_row(rows.last(), widths, aligns),
        );
    }
}

proof fn lemma_normalize_clean(rows: Seq<Seq<Seq<char>>>, n: int)
    requires
        cells_clean(rows),
    ensures
        cells_clean(normalize(rows, n)),
{
    let norm = normalize(rows, n);
    assert forall|i: int, j: int|
        0 <= i < norm.len() && 0 <= j < norm[i].len() implies no_newline(#[trigger] norm[i][j]) by {
        assert(norm[i] == pad_row(rows[i], n));
        if j < rows[i].len() {
            assert(norm[i][j] == rows[i][j]);
        } else {
            assert(norm[i][j] =~= Seq::<char>::empty());
        }
    }
}

/// One line per row: with no header designation, the rendered output
/// holds exactly one line terminator per input row, so the output has as
/// many lines as the input.
pub proof fn lemma_line_count_no_header(
    rows: Seq<Seq<Seq<char>>>,
    aligns: Seq<(usize, Alignment)>,
)
    requires
        cells_clean(rows),
    ensures
        newline_count(spec_table(rows, false, None, aligns)) == rows.len(),
{
    if rows.len() > 0 {
        let n = crate::table::max_cols(rows);
        let norm = normalize(rows, n);
        lemma_normalize_clean(rows, n);
        lemma_cat_rows_lines(norm, crate::table::base_widths(norm, n), aligns);
    }
}

/// With the first row as header and N data rows, the output holds
/// exactly N + 2 lines: the header, the separator, and one line per
/// data row.
pub proof fn lemma_line_count_with_header(
    rows: Seq<Seq<Seq<char>>>,
    aligns: Seq<(usize, Alignment)>,
)
    requires
        rows.len() > 0,
        cells_clean(rows),
    ensures
        newline_count(spec_table(rows, true, None, aligns)) == (rows.len() - 1) + 2,
{
    let n = crate::table::max_cols(rows);
    let norm = normalize(rows, n);
    let base = crate::table::base_widths(norm, n);
    let hdr = norm[0];
    let w = widen(base, hdr);
    lemma_normalize_clean(rows, n);
    assert(forall|j: int| 0 <= j < hdr.len() ==> no_newline(#[trigger] hdr[j]));
    lemma_rendered_row_lines(hdr, w, aligns);
    lemma_rendered_sep_lines(w);
    assert(cells_clean(norm.skip(1))) by {
        assert(forall|i: int|
            0 <= i < norm.skip(1).len() ==> #[trigger] norm.skip(1)[i] == norm[i + 1]);
    }
    lemma_cat_rows_lines(norm.skip(1), w, aligns);
    lemma_newline_count_add(rendered_row(hdr, w, aligns), rendered_sep(w));
    lemma_newline_count_add(
        rendered_row(hdr, w, aligns) + rendered_sep(w),
        cat_rows(norm.skip(1), w, aligns),
    );
}

proof fn lemma_trim_start_clean(s: Seq<char>)
    requires
        no_newline(s),
    ensures
        no_newline(crate::text::trim_start_spec(s)),
    decreases s.len(),
{
    if s.len() > 0 && crate::text::white_space(s[0]) {
        assert(forall|i: int| 0 <= i < s.len() - 1 ==> #[trigger] s.skip(1)[i] == s[i + 1]);
        lemma_trim_start_clean(s.skip(1));
    }
}

proof fn lemma_trim_end_clean(s: Seq<char>)
    requires
        no_newline(s),
    ensures
        no_newline(crate::text::trim_end_spec(s)),
    decreases s.len(),
{
    if s.len() > 0 && crate::text::white_space(s.last()) {
        assert(no_newline(s.drop_last()));
        lemma_trim_end_clean(s.drop_last());
    }
}

proof fn lemma_trim_clean(s: Seq<char>)
    requires
        no_newline(s),
    ensures
        no_newline(crate::text::trim_spec(s)),
{
    lemma_trim_start_clean(s);
    lemma_trim_end_clean(crate::text::trim_start_spec(s));
}

proof fn lemma_split_cells_clean(s: Seq<char>, sep: char)
    requires
        no_newline(s),
    ensures
        forall|k: int|
            0 <= k < crate::text::split_cells(s, sep).len() ==> no_newline(
                #[trigger] crate::text::split_cells(s, sep)[k],
            ),
    decreases s.len(),
{
    let cells = crate::text::split_cells(s, sep);
    if s.len() == 0 {
        assert(no_newline(cells[0]));
    } else {
        assert(no_newline(s.drop_last()));
        lemma_split_cells_clean(s.drop_last(), sep);
        crate::text::lemma_split_cells_len(s.drop_last(), sep);
        let prev = crate::text::split_cells(s.drop_last(), sep);
        if s.last() == sep {
            assert(forall|k: int| 0 <= k < prev.len() ==> cells[k] == prev[k]);
            assert(cells.last() =~= Seq::<char>::empty());
        } else {
            assert(forall|k: int| 0 <= k < prev.len() - 1 ==> cells[k] == prev[k]);
            assert(cells.last() == prev.last().push(s.last()));
            assert(s.last() != '\n');
            assert(no_newline(prev.last().push(s.last()))) by {
                assert(forall|i: int|
                    0 <= i < prev.last().len() ==> #[trigger] prev.last().push(s.last())[i]
                        == prev.last()[i]);
            }
        }
    }
}

/// With explicit header names and N data rows, the output holds exactly
/// N + 2 lines: the names line, the separator, and one line per row.
pub proof fn lemma_line_count_with_columns(
    rows: Seq<Seq<Seq<char>>>,
    c: Seq<char>,
    header: bool,
    aligns: Seq<(usize, Alignment)>,
)
    requires
        rows.len() > 0,
        cells_clean(rows),
        no_newline(c),
    ensures
        newline_count(spec_table(rows, header, Some(c), aligns)) == rows.len() + 2,
{
    let n = crate::table::max_cols(rows);
    let norm = normalize(rows, n);
    let base = crate::table::base_widths(norm, n);
    let hdr = crate::table::columns_cells(c);
    let w = widen(base, hdr);
    lemma_normalize_clean(rows, n);
    lemma_split_cells_clean(c, ',');
    assert forall|j: int| 0 <= j < hdr.len() implies no_newline(#[trigger] hdr[j]) by {
        assert(hdr[j] == crate::text::trim_spec(crate::text::split_cells(c, ',')[j]));
        lemma_trim_clean(crate::text::split_cells(c, ',')[j]);
    }
    lemma_rendered_row_lines(hdr, w, aligns);
    lemma_rendered_sep_lines(w);
    lemma_cat_rows_lines(norm, w, aligns);
    lemma_newline_count_add(rendered_row(hdr, w, aligns), rendered_sep(w));
    lemma_newline_count_add(
        rendered_row(hdr, w, aligns) + rendered_sep(w),
        cat_rows(norm, w, aligns),
    );
}

} // verus!
