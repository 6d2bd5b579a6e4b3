//! The table builder: normalizes row lengths, computes column widths,
//! resolves the header, and renders the whole table.

use vstd::prelude::*;
use vstd::pervasive::VecAdditionalExecFns;
use vstd::string::StringExecFns;
use crate::align::{parse_format_spec, spec_alignments, Alignment, AlignmentMap};
use crate::render::{
    format_row, format_separator, rendered_row, rendered_sep, widths_view,
};
use crate::splitter::{opt_str_view, parse_input, pattern_ok, spec_rows};
use crate::text::{row_view, rows_view, split_cells, split_on_char, trim, trim_spec};
use crate::width::{display_width, seq_width};

verus! {

/// The options the formatter acts on.
pub struct Options {
    /// Literal single-character column separator.
    pub separator: Option<char>,
    /// Regular-expression column separator; takes precedence over
    /// `separator`.
    pub separator_pattern: Option<String>,
    /// Treat the first input row as the header.
    pub header: bool,
    /// Explicit comma-separated header names; takes precedence over
    /// `header`, and all input rows are then data.
    pub columns: Option<String>,
    /// Per-column alignment specification.
    pub format: Option<String>,
}

/// The column count of a table: the largest cell count of any row.
pub open spec fn max_cols(rows: Seq<Seq<Seq<char>>>) -> int
    decreases rows.len(),
{
    if rows.len() == 0 {
        0
    } else {
        let m = max_cols(rows.drop_last());
        if rows.last().len() > m {
            rows.last().len() as int
        } else {
            m
        }
    }
}

pub proof fn lemma_max_cols_ge(rows: Seq<Seq<Seq<char>>>, i: int)
    requires
        0 <= i < rows.len(),
    ensures
        rows[i].len() <= max_cols(rows),
        max_cols(rows) >= 0,
    decreases rows.len(),
{
    if rows.len() > 0 {
        if i < rows.len() - 1 {
            lemma_max_cols_ge(rows.drop_last(), i);
        } else if rows.len() > 1 {
            lemma_max_cols_ge(rows.drop_last(), 0);
        }
    }
}

/// A row padded on the right with empty cells to exactly `n` cells;
/// cells are never dropped, so this is only applied with `n` at least
/// the row's length.
pub open spec fn pad_row(row: Seq<Seq<char>>, n: int) -> Seq<Seq<char>> {
    Seq::new(n as nat, |j: int| if j < row.len() { row[j] } else { Seq::<char>::empty() })
}

/// Every row padded to the column count `n`.
pub open spec fn normalize(rows: Seq<Seq<Seq<char>>>, n: int) -> Seq<Seq<Seq<char>>> {
    rows.map_values(|r: Seq<Seq<char>>| pad_row(r, n))
}

/// The base width of column `j`: the largest display width of that
/// column's cell over all rows.
pub open spec fn col_width(rows: Seq<Seq<Seq<char>>>, j: int) -> int
    decreases rows.len(),
{
    if rows.len() == 0 {
        0
    } else {
        let m = col_width(rows.drop_last(), j);
        let w = if 0 <= j < rows.last().len() {
            seq_width(rows.last()[j]) as int
        } else {
            0
        };
        if w > m {
            w
        } else {
            m
        }
    }
}

/// No cell is ever wider than its column.
pub proof fn lemma_col_width_ge(rows: Seq<Seq<Seq<char>>>, i: int, j: int)
    requires
        0 <= i < rows.len(),
        0 <= j < rows[i].len(),
    ensures
        seq_width(rows[i][j]) <= col_width(rows, j),
        col_width(rows, j) >= 0,
    decreases rows.len(),
{
    if rows.len() > 0 {
        if i < rows.len() - 1 {
            lemma_col_width_ge(rows.drop_last(), i, j);
        } else {
            lemma_col_width_nonneg(rows.drop_last(), j);
        }
    }
}

pub proof fn lemma_col_width_nonneg(rows: Seq<Seq<Seq<char>>>, j: int)
    ensures
        col_width(rows, j) >= 0,
    decreases rows.len(),
{
    if rows.len() > 0 {
        lemma_col_width_nonneg(rows.drop_last(), j);
    }
}

/// The base width vector of a table with `n` columns.
pub open spec fn base_widths(rows: Seq<Seq<Seq<char>>>, n: int) -> Seq<int> {
    Seq::new(n as nat, |j: int| col_width(rows, j))
}

/// The header cells an explicit `--columns` list denotes: the list is
/// split on commas and each name is trimmed.
pub open spec fn columns_cells(c: Seq<char>) -> Seq<Seq<char>> {
    split_cells(c, ',').map_values(|p: Seq<char>| trim_spec(p))
}

/// The width vector widened to the header: within the header's length,
/// a column is at least as wide as the header cell.
pub open spec fn widen(widths: Seq<int>, hdr: Seq<Seq<char>>) -> Seq<int> {
    Seq::new(
        widths.len(),
        |j: int|
            if j < hdr.len() && seq_width(hdr[j]) > widths[j] {
                seq_width(hdr[j]) as int
            } else {
                widths[j]
            },
    )
}

/// The concatenation of the rendered data rows, in order.
pub open spec fn cat_rows(
    rows: Seq<Seq<Seq<char>>>,
    widths: Seq<int>,
    aligns: Seq<(usize, Alignment)>,
) -> Seq<char>
    decreases rows.len(),
{
    if rows.len() == 0 {
        Seq::empty()
    } else {
        cat_rows(rows.drop_last(), widths, aligns) + rendered_row(rows.last(), widths, aligns)
    }
}

/// The final width vector a table is rendered with: the base widths,
/// widened to the header row if one is present.
pub open spec fn table_widths(
    rows: Seq<Seq<Seq<char>>>,
    header: bool,
    columns: Option<Seq<char>>,
) -> Seq<int> {
    let n = max_cols(rows);
    let norm = normalize(rows, n);
    let base = base_widths(norm, n);
    if columns is Some {
        widen(base, columns_cells(columns->0))
    } else if header {
        widen(base, norm[0])
    } else {
        base
    }
}

/// The whole rendered table: nothing for an empty row set; otherwise the
/// rows are normalized to the column count, the base widths are computed
/// over all rows, and either an explicit header (all rows are data), the
/// first row as header (the rest are data), or no header at all decides
/// what is emitted; a header is followed by the separator line, and the
/// width vector is widened to the header first.
pub open spec fn spec_table(
    rows: Seq<Seq<Seq<char>>>,
    header: bool,
    columns: Option<Seq<char>>,
    aligns: Seq<(usize, Alignment)>,
) -> Seq<char> {
    if rows.len() == 0 {
        Seq::empty()
    } else {
        let n = max_cols(rows);
        let norm = normalize(rows, n);
        let w = table_widths(rows, header, columns);
        if columns is Some {
            let hdr = columns_cells(columns->0);
            rendered_row(hdr, w, aligns) + rendered_sep(w) + cat_rows(norm, w, aligns)
        } else if header {
            let hdr = norm[0];
            rendered_row(hdr, w, aligns) + rendered_sep(w) + cat_rows(norm.skip(1), w, aligns)
        } else {
            cat_rows(norm, w, aligns)
        }
    }
}

/// Clones a row; the clone holds the same cells.
fn clone_row(v: &Vec<String>) -> (r: Vec<String>)
    ensures
        row_view(r) == row_view(*v),
{
    let r = v.clone();
    proof {
        assert(r@.len() == v@.len());
        assert(forall|j: int| 0 <= j < v@.len() ==> cloned::<String>(v@[j], #[trigger] r@[j]));
        assert(forall|j: int| 0 <= j < v@.len() ==> #[trigger] r@[j]@ == v@[j]@);
        assert(row_view(r) =~= row_view(*v));
    }
    r
}

/// Appends the rendered data rows from `ds` on.
fn append_rows(
    out: &mut String,
    norm: &Vec<Vec<String>>,
    ds: usize,
    widths: &Vec<usize>,
    alignments: &AlignmentMap,
)
    requires
        ds <= norm@.len(),
        forall|i: int, j: int|
            ds <= i < norm@.len() && 0 <= j < norm@[i]@.len() && j < widths@.len()
                ==> seq_width(norm@[i]@[j]@) <= widths@[j],
    ensures
        final(out)@ == old(out)@ + cat_rows(
            rows_view(*norm).skip(ds as int),
            widths_view(*widths),
            alignments.entries@,
        ),
{
    let ghost normv = rows_view(*norm);
    let ghost wv = widths_view(*widths);
    let ghost aligns = alignments.entries@;
    let mut i: usize = ds;
    proof {
        assert(normv.subrange(ds as int, ds as int) =~= Seq::<Seq<Seq<char>>>::empty());
        assert(old(out)@ + cat_rows(normv.subrange(ds as int, ds as int), wv, aligns) =~= old(
            out,
        )@);
    }
    while i < norm.len()
        invariant
            normv == rows_view(*norm),
            wv == widths_view(*widths),
            aligns == alignments.entries@,
            ds <= i <= normv.len(),
            forall|k: int, j: int|
                ds <= k < norm@.len() && 0 <= j < norm@[k]@.len() && j < widths@.len()
                    ==> seq_width(norm@[k]@[j]@) <= widths@[j],
            out@ == old(out)@ + cat_rows(normv.subrange(ds as int, i as int), wv, aligns),
        decreases normv.len() - i,
    {
        let line = format_row(&norm[i], widths, alignments);
        out.append(line.as_str());
        proof {
            assert(normv.subrange(ds as int, i as int + 1).drop_last() =~= normv.subrange(
                ds as int,
                i as int,
            ));
            assert(normv.subrange(ds as int, i as int + 1).last() == normv[i as int]);
            assert(row_view(norm@[i as int]) == normv[i as int]);
        }
        i = i + 1;
    }
    proof {
        assert(normv.subrange(ds as int, normv.len() as int) =~= normv.skip(ds as int));
    }
}

/// Renders the rows as the finished table: rows are normalized to the
/// column count, column widths are the largest cell width per column
/// (widened to the header if one is present), and the header, the
/// separator line and every data row are emitted in order.
pub fn format_table(rows: Vec<Vec<String>>, args: &Options, alignments: &AlignmentMap) -> (r:
    String)
    ensures
        r@ == spec_table(
            rows_view(rows),
            args.header,
            opt_str_view(args.columns),
            alignments.entries@,
        ),
{
    let ghost rv = rows_view(rows);
    let ghost aligns = alignments.entries@;
    if rows.len() == 0 {
        return String::new();
    }
    // Step 1: the column count is the largest cell count of any row.
    let mut num_cols: usize = 0;
    let mut i: usize = 0;
    proof {
        assert(rv.take(0) =~= Seq::<Seq<Seq<char>>>::empty());
    }
    while i < rows.len()
        invariant
            rv == rows_view(rows),
            0 <= i <= rv.len(),
            num_cols as int == max_cols(rv.take(i as int)),
        decreases rv.len() - i,
    {
        proof {
            assert(rv.take(i as int + 1).drop_last() =~= rv.take(i as int));
            assert(rv.take(i as int + 1).last() == rv[i as int]);
            assert(rv[i as int].len() == rows@[i as int]@.len());
        }
        if rows[i].len() > num_cols {
            num_cols = rows[i].len();
        }
        i = i + 1;
    }
    proof {
        assert(rv.take(rv.len() as int) =~= rv);
    }
    let ghost n = max_cols(rv);
    // Step 2: every row is padded on the right with empty cells.
    let mut norm: Vec<Vec<String>> = Vec::new();
    let mut i: usize = 0;
    proof {
        assert(rows_view(norm) =~= normalize(rv, n).take(0));
    }
    while i < rows.len()
        invariant
            rv == rows_view(rows),
            n == max_cols(rv),
            num_cols as int == n,
            0 <= i <= rv.len(),
            rows_view(norm) == normalize(rv, n).take(i as int),
        decreases rv.len() - i,
    {
        let mut row = clone_row(&rows[i]);
        proof {
            assert(row_view(row) == rv[i as int]);
            lemma_max_cols_ge(rv, i as int);
            assert(row@.len() == rv[i as int].len());
            assert(row_view(row) =~= pad_row(rv[i as int], row@.len() as int));
        }
        while row.len() < num_cols
            invariant
                0 <= i < rv.len(),
                num_cols as int == n,
                rv[i as int].len() <= row@.len() <= num_cols,
                row_view(row) == pad_row(rv[i as int], row@.len() as int),
            decreases num_cols - row@.len(),
        {
            let ghost prev = row_view(row);
            let ghost plen = row@.len() as int;
            row.push(String::new());
            proof {
                assert(row_view(row) =~= prev.push(Seq::<char>::empty()));
                assert(pad_row(rv[i as int], plen + 1) =~= pad_row(rv[i as int], plen).push(
                    Seq::<char>::empty(),
                ));
            }
        }
        let ghost rowv = row_view(row);
        proof {
            assert(rowv == pad_row(rv[i as int], n));
        }
        let ghost pre = rows_view(norm);
        norm.push(row);
        proof {
            assert(rows_view(norm) =~= pre.push(rowv));
            assert(normalize(rv, n).take(i as int + 1) =~= normalize(rv, n).take(i as int).push(
                pad_row(rv[i as int], n),
            ));
        }
        i = i + 1;
    }
    proof {
        assert(normalize(rv, n).take(rv.len() as int) =~= normalize(rv, n));
    }
    let ghost normv = normalize(rv, n);
    // Step 3: the base width of a column is its largest cell width.
    let mut widths: Vec<usize> = Vec::new();
    let mut j: usize = 0;
    while j < num_cols
        invariant
            0 <= j <= num_cols,
            widths@.len() == j,
            forall|jj: int| 0 <= jj < j ==> widths@[jj] == 0,
        decreases num_cols - j,
    {
        widths.push(0);
        j = j + 1;
    }
    let mut i: usize = 0;
    proof {
        assert(normv.take(0) =~= Seq::<Seq<Seq<char>>>::empty());
    }
    while i < norm.len()
        invariant
            normv == rows_view(norm),
            normv == normalize(rv, n),
            num_cols as int == n,
            n == max_cols(rv),
            0 <= i <= normv.len(),
            widths@.len() == num_cols,
            forall|jj: int|
                0 <= jj < num_cols ==> widths@[jj] as int == col_width(normv.take(i as int), jj),
        decreases normv.len() - i,
    {
        let mut j: usize = 0;
        proof {
            assert(normv.take(i as int + 1).drop_last() =~= normv.take(i as int));
            assert(normv.take(i as int + 1).last() == normv[i as int]);
            assert(normv[i as int].len() == n);
        }
        let row_len = norm[i].len();
        proof {
            assert(row_view(norm@[i as int]) == normv[i as int]);
            assert(row_len == num_cols);
        }
        while j < row_len
            invariant
                normv == rows_view(norm),
                0 <= i < normv.len(),
                row_len == num_cols,
                normv[i as int].len() == num_cols,
                0 <= j <= num_cols,
                widths@.len() == num_cols,
                forall|jj: int|
                    0 <= jj < j ==> widths@[jj] as int == col_width(
                        normv.take(i as int + 1),
                        jj,
                    ),
                forall|jj: int|
                    j <= jj < num_cols ==> widths@[jj] as int == col_width(
                        normv.take(i as int),
                        jj,
                    ),
                normv.take(i as int + 1).drop_last() == normv.take(i as int),
                normv.take(i as int + 1).last() == normv[i as int],
            decreases row_len - j,
        {
            let w = display_width(norm[i][j].as_str());
            proof {
                assert(norm@[i as int]@[j as int]@ == normv[i as int][j as int]);
            }
            if w > widths[j] {
                widths.set(j, w);
            }
            j = j + 1;
        }
        i = i + 1;
    }
    proof {
        assert(normv.take(normv.len() as int) =~= normv);
    }
    let ghost base = base_widths(normv, n);
    proof {
        assert(widths_view(widths) =~= base);
    }
    // Steps 4 and 5: resolve the header, widen the widths to it, and emit.
    let mut out = String::new();
    if args.columns.is_some() || args.header {
        let mut hdr: Vec<String> = Vec::new();
        let mut ds: usize = 0;
        match &args.columns {
            Some(c) => {
                let parts = split_on_char(c.as_str(), ',');
                let ghost pviews = parts@.map_values(|p: String| p@);
                let mut k: usize = 0;
                proof {
                    assert(row_view(hdr) =~= columns_cells(c@).take(0));
                    assert(pviews == split_cells(c@, ','));
                }
                while k < parts.len()
                    invariant
                        pviews == parts@.map_values(|p: String| p@),
                        pviews == split_cells(c@, ','),
                        0 <= k <= pviews.len(),
                        row_view(hdr) == columns_cells(c@).take(k as int),
                    decreases pviews.len() - k,
                {
                    let cell = trim(parts[k].as_str());
                    let ghost pre = row_view(hdr);
                    hdr.push(cell);
                    proof {
                        assert(row_view(hdr) =~= pre.push(trim_spec(pviews[k as int])));
                        assert(columns_cells(c@).take(k as int + 1) =~= columns_cells(
                            c@,
                        ).take(k as int).push(trim_spec(pviews[k as int])));
                    }
                    k = k + 1;
                }
                proof {
                    assert(columns_cells(c@).take(columns_cells(c@).len() as int)
                        =~= columns_cells(c@));
                }
                ds = 0;
            },
            None => {
                let row0 = clone_row(&norm[0]);
                proof {
                    assert(row_view(row0) == normv[0]);
                }
                hdr = row0;
                ds = 1;
            },
        }
        let ghost hdrv = row_view(hdr);
        let ghost wfin = widen(base, hdrv);
        // Step 4: a column never cuts its header cell short.
        let mut j: usize = 0;
        while j < widths.len()
            invariant
                hdrv == row_view(hdr),
                wfin == widen(base, hdrv),
                widths@.len() == base.len(),
                0 <= j <= widths@.len(),
                forall|jj: int| 0 <= jj < j ==> widths@[jj] as int == wfin[jj],
                forall|jj: int| j <= jj < widths@.len() ==> widths@[jj] as int == base[jj],
            decreases widths@.len() - j,
        {
            if j < hdr.len() {
                let hw = display_width(hdr[j].as_str());
                proof {
                    assert(hdr@[j as int]@ == hdrv[j as int]);
                }
                if hw > widths[j] {
                    widths.set(j, hw);
                }
            }
            j = j + 1;
        }
        proof {
            assert(widths_view(widths) =~= wfin);
        }
        proof {
            assert forall|jj: int|
                0 <= jj < hdrv.len() && jj < widths@.len() implies seq_width(hdrv[jj])
                <= widths@[jj] by {
                assert(widths_view(widths)[jj] == widths@[jj] as int);
                assert(widths_view(widths)[jj] == wfin[jj]);
                assert(wfin[jj] == widen(base, hdrv)[jj]);
                assert(base[jj] == col_width(normv, jj));
                lemma_col_width_nonneg(normv, jj);
            }
        }
        let hline = format_row(&hdr, &widths, alignments);
        out.append(hline.as_str());
        let sline = format_separator(&widths);
        out.append(sline.as_str());
        proof {
            assert forall|ii: int, jj: int|
                ds <= ii < norm@.len() && 0 <= jj < norm@[ii]@.len() && jj < widths@.len() implies
                seq_width(norm@[ii]@[jj]@) <= widths@[jj] by {
                assert(normv[ii] == row_view(norm@[ii]));
                assert(normv[ii][jj] == norm@[ii]@[jj]@);
                assert(widths_view(widths)[jj] == widths@[jj] as int);
                assert(widths_view(widths)[jj] == wfin[jj]);
                assert(wfin[jj] == widen(base, hdrv)[jj]);
                assert(base[jj] == col_width(normv, jj));
                lemma_col_width_ge(normv, ii, jj);
            }
        }
        append_rows(&mut out, &norm, ds, &widths, alignments);
        proof {
            assert(normv.skip(0) =~= normv);
            assert(out@ =~= spec_table(rv, args.header, opt_str_view(args.columns), aligns));
        }
    } else {
        proof {
            assert forall|ii: int, jj: int|
                0 <= ii < norm@.len() && 0 <= jj < norm@[ii]@.len() && jj < widths@.len() implies
                seq_width(norm@[ii]@[jj]@) <= widths@[jj] by {
                assert(normv[ii] == row_view(norm@[ii]));
                assert(normv[ii][jj] == norm@[ii]@[jj]@);
                assert(widths_view(widths)[jj] == widths@[jj] as int);
                assert(widths_view(widths)[jj] == base[jj]);
                assert(base[jj] == col_width(normv, jj));
                lemma_col_width_ge(normv, ii, jj);
            }
        }
        append_rows(&mut out, &norm, 0, &widths, alignments);
        proof {
            assert(normv.skip(0) =~= normv);
            assert(out@ =~= spec_table(rv, args.header, opt_str_view(args.columns), aligns));
        }
    }
    out
}

/// Formats the whole input: each line is split into a row under the
/// options' splitting mode, the alignment mapping is resolved from the
/// format specification, and the table is rendered. Returns `None`
/// exactly when a separator pattern was supplied that is not a valid
/// regular expression and there was input to split.
pub fn render(lines: &Vec<String>, args: &Options) -> (r: Option<String>)
    ensures
        r is Some <==> (lines@.len() == 0 || (match args.separator_pattern {
            Some(p) => pattern_ok(p@),
            None => true,
        })),
        r matches Some(out) ==> out@ == spec_table(
            spec_rows(
                lines@.map_values(|l: String| l@),
                opt_str_view(args.separator_pattern),
                args.separator,
            ),
            args.header,
            opt_str_view(args.columns),
            spec_alignments(opt_str_view(args.format)),
        ),
{
    match parse_input(lines, &args.separator_pattern, &args.separator) {
        Some(rows) => {
            let alignments = parse_format_spec(&args.format);
            Some(format_table(rows, args, &alignments))
        },
        None => None,
    }
}

} // verus!
