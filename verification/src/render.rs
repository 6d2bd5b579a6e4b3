//! Row rendering: one `|`-delimited line per row, and the `+---+`
//! separator line under the header.

use vstd::prelude::*;
use vstd::string::{StrSliceExecFns, StringExecFns};
use crate::align::{align_in, Alignment, AlignmentMap};
use crate::text::row_view;
use crate::width::{display_width, seq_width};

verus! {

/// `n` spaces.
pub open spec fn spaces(n: int) -> Seq<char>
    decreases n,
{
    if n <= 0 {
        Seq::empty()
    } else {
        spaces(n - 1).push(' ')
    }
}

/// `n` dashes.
pub open spec fn dashes(n: int) -> Seq<char>
    decreases n,
{
    if n <= 0 {
        Seq::empty()
    } else {
        dashes(n - 1).push('-')
    }
}

/// A cell padded to the display width `w` of its column: the padding is
/// the difference between `w` and the cell's display width; left
/// alignment puts it all after the cell, right alignment all before it,
/// and center alignment splits it, the extra space of an odd padding
/// going to the right.
pub open spec fn padded_cell(cell: Seq<char>, w: int, a: Alignment) -> Seq<char> {
    let p = w - seq_width(cell);
    match a {
        Alignment::Left => cell + spaces(p),
        Alignment::Right => spaces(p) + cell,
        Alignment::Center => spaces(p / 2) + cell + spaces(p - p / 2),
    }
}

/// The cells of one rendered line from column `col` on: every cell that
/// has a column width is rendered as ` cell |`; cells beyond the width
/// vector, and columns beyond the row, are dropped.
pub open spec fn row_cells(
    cells: Seq<Seq<char>>,
    widths: Seq<int>,
    aligns: Seq<(usize, Alignment)>,
    col: int,
) -> Seq<char>
    decreases cells.len(),
{
    if cells.len() == 0 || widths.len() == 0 {
        Seq::empty()
    } else {
        seq![' '] + padded_cell(cells[0], widths[0], align_in(aligns, col)) + seq![' ', '|']
            + row_cells(cells.skip(1), widths.skip(1), aligns, col + 1)
    }
}

/// One rendered table line: `| cell | cell |` and a line terminator.
pub open spec fn rendered_row(
    cells: Seq<Seq<char>>,
    widths: Seq<int>,
    aligns: Seq<(usize, Alignment)>,
) -> Seq<char> {
    seq!['|'] + row_cells(cells, widths, aligns, 0) + seq!['\n']
}

/// The separator line under the header: `+`, then for every column
/// `width + 2` dashes and a `+`, and a line terminator.
pub open spec fn sep_cells(widths: Seq<int>) -> Seq<char>
    decreases widths.len(),
{
    if widths.len() == 0 {
        Seq::empty()
    } else {
        dashes(widths[0] + 2) + seq!['+'] + sep_cells(widths.skip(1))
    }
}

pub open spec fn rendered_sep(widths: Seq<int>) -> Seq<char> {
    seq!['+'] + sep_cells(widths) + seq!['\n']
}

/// The column widths a width vector holds.
pub open spec fn widths_view(v: Vec<usize>) -> Seq<int> {
    v@.map_values(|w: usize| w as int)
}

/// Appends `n` spaces.
fn push_spaces(out: &mut String, n: usize)
    ensures
        final(out)@ == old(out)@ + spaces(n as int),
{
    let mut k: usize = 0;
    proof {
        assert(old(out)@ + spaces(0) =~= old(out)@);
        reveal_strlit(" ");
        assert(" "@ =~= seq![' ']);
    }
    while k < n
        invariant
            0 <= k <= n,
            out@ == old(out)@ + spaces(k as int),
            " "@ == seq![' '],
        decreases n - k,
    {
        out.append(" ");
        proof {
            assert(old(out)@ + spaces(k as int) + seq![' '] =~= old(out)@ + spaces(k as int + 1));
        }
        k = k + 1;
    }
}

/// Appends `n` dashes.
fn push_dashes(out: &mut String, n: usize)
    ensures
        final(out)@ == old(out)@ + dashes(n as int),
{
    let mut k: usize = 0;
    proof {
        assert(old(out)@ + dashes(0) =~= old(out)@);
        reveal_strlit("-");
        assert("-"@ =~= seq!['-']);
    }
    while k < n
        invariant
            0 <= k <= n,
            out@ == old(out)@ + dashes(k as int),
            "-"@ == seq!['-'],
        decreases n - k,
    {
        out.append("-");
        proof {
            assert(old(out)@ + dashes(k as int) + seq!['-'] =~= old(out)@ + dashes(k as int + 1));
        }
        k = k + 1;
    }
}

/// Renders one row against the column widths and the alignment mapping:
/// `| cell | cell |` with each cell padded to its column's width.
pub fn format_row(row: &Vec<String>, col_widths: &Vec<usize>, alignments: &AlignmentMap) -> (r:
    String)
    requires
        forall|i: int|
            0 <= i < row@.len() && i < col_widths@.len() ==> seq_width(row@[i]@)
                <= col_widths@[i],
    ensures
        r@ == rendered_row(row_view(*row), widths_view(*col_widths), alignments.entries@),
{
    let ghost cells = row_view(*row);
    let ghost widths = widths_view(*col_widths);
    let mut out = String::new();
    proof {
        reveal_strlit("|");
        reveal_strlit(" ");
        reveal_strlit(" |");
        reveal_strlit("\n");
        assert("|"@ =~= seq!['|']);
        assert(" "@ =~= seq![' ']);
        assert(" |"@ =~= seq![' ', '|']);
        assert("\n"@ =~= seq!['\n']);
    }
    out.append("|");
    let mut i: usize = 0;
    let end = if row.len() < col_widths.len() {
        row.len()
    } else {
        col_widths.len()
    };
    proof {
        assert(out@ + row_cells(cells.skip(0), widths.skip(0), alignments.entries@, 0) =~= seq!['|']
            + row_cells(cells, widths, alignments.entries@, 0)) by {
            assert(cells.skip(0) =~= cells);
            assert(widths.skip(0) =~= widths);
            assert(out@ =~= seq!['|']);
        }
    }
    while i < end
        invariant
            cells == row_view(*row),
            widths == widths_view(*col_widths),
            end == (if cells.len() < widths.len() {
                cells.len()
            } else {
                widths.len()
            }),
            0 <= i <= end,
            forall|j: int|
                0 <= j < row@.len() && j < col_widths@.len() ==> seq_width(row@[j]@)
                    <= col_widths@[j],
            out@ + row_cells(cells.skip(i as int), widths.skip(i as int), alignments.entries@, i as int)
                == seq!['|'] + row_cells(cells, widths, alignments.entries@, 0),
            "|"@ == seq!['|'],
            " "@ == seq![' '],
            " |"@ == seq![' ', '|'],
        decreases end - i,
    {
        let ghost pre = out@;
        out.append(" ");
        let cw = display_width(row[i].as_str());
        let w = col_widths[i];
        proof {
            assert(cells.skip(i as int)[0] == cells[i as int]);
            assert(seq_width(cells[i as int]) <= widths[i as int]);
        }
        let pad = w - cw;
        let a = alignments.get(i);
        let (lp, rp): (usize, usize) = match a {
            Alignment::Left => (0, pad),
            Alignment::Right => (pad, 0),
            Alignment::Center => (pad / 2, pad - pad / 2),
        };
        push_spaces(&mut out, lp);
        out.append(row[i].as_str());
        push_spaces(&mut out, rp);
        out.append(" |");
        proof {
            let cs = cells.skip(i as int);
            let ws = widths.skip(i as int);
            assert(cs.skip(1) =~= cells.skip(i as int + 1));
            assert(ws.skip(1) =~= widths.skip(i as int + 1));
            assert(out@ =~= pre + (seq![' '] + padded_cell(
                cells[i as int],
                widths[i as int],
                align_in(alignments.entries@, i as int),
            ) + seq![' ', '|'])) by {
                let cell = cells[i as int];
                let p = widths[i as int] - seq_width(cell);
                assert(lp + rp == p);
                match a {
                    Alignment::Left => {
                        assert(spaces(0) =~= Seq::<char>::empty());
                        assert(padded_cell(cell, widths[i as int], a) =~= spaces(0) + cell
                            + spaces(p)) by {
                            assert(cell + spaces(p) =~= spaces(0) + cell + spaces(p));
                        }
                    },
                    Alignment::Right => {
                        assert(spaces(0) =~= Seq::<char>::empty());
                        assert(padded_cell(cell, widths[i as int], a) =~= spaces(p) + cell + spaces(
                            0,
                        ));
                    },
                    Alignment::Center => {
                        assert(padded_cell(cell, widths[i as int], a) == spaces(p / 2) + cell
                            + spaces(p - p / 2));
                    },
                }
                assert(padded_cell(cell, widths[i as int], a) =~= spaces(lp as int) + cell + spaces(
                    rp as int,
                ));
            }
            assert(row_cells(cs, ws, alignments.entries@, i as int) == seq![' '] + padded_cell(
                cells[i as int],
                widths[i as int],
                align_in(alignments.entries@, i as int),
            ) + seq![' ', '|'] + row_cells(
                cells.skip(i as int + 1),
                widths.skip(i as int + 1),
                alignments.entries@,
                i as int + 1,
            ));
            assert(out@ + row_cells(
                cells.skip(i as int + 1),
                widths.skip(i as int + 1),
                alignments.entries@,
                i as int + 1,
            ) =~= pre + row_cells(cs, ws, alignments.entries@, i as int));
        }
        i = i + 1;
    }
    proof {
        assert(row_cells(cells.skip(end as int), widths.skip(end as int), alignments.entries@, end as int)
            =~= Seq::<char>::empty());
        assert(out@ =~= seq!['|'] + row_cells(cells, widths, alignments.entries@, 0));
    }
    out.append("\n");
    proof {
        assert(out@ =~= rendered_row(cells, widths, alignments.entries@));
    }
    out
}

/// Renders the separator line for the column widths.
pub fn format_separator(col_widths: &Vec<usize>) -> (r: String)
    ensures
        r@ == rendered_sep(widths_view(*col_widths)),
{
    let ghost widths = widths_view(*col_widths);
    let mut out = String::new();
    proof {
        reveal_strlit("+");
        reveal_strlit("--+");
        assert("+"@ =~= seq!['+']);
        assert("--+"@ =~= seq!['-', '-', '+']);
    }
    out.append("+");
    let mut i: usize = 0;
    proof {
        assert(widths.skip(0) =~= widths);
        assert(out@ =~= seq!['+']);
    }
    while i < col_widths.len()
        invariant
            widths == widths_view(*col_widths),
            0 <= i <= widths.len(),
            out@ + sep_cells(widths.skip(i as int)) == seq!['+'] + sep_cells(widths),
            "--+"@ == seq!['-', '-', '+'],
        decreases widths.len() - i,
    {
        let ghost pre = out@;
        let w = col_widths[i];
        push_dashes(&mut out, w);
        out.append("--+");
        proof {
            let ws = widths.skip(i as int);
            assert(ws.skip(1) =~= widths.skip(i as int + 1));
            assert(ws[0] == widths[i as int]);
            assert(out@ =~= pre + (dashes(widths[i as int] + 2) + seq!['+'])) by {
                let w0 = widths[i as int];
                assert(dashes(w0 + 1) == dashes(w0).push('-'));
                assert(dashes(w0 + 2) == dashes(w0 + 1).push('-'));
                assert(dashes(w0 + 2) =~= dashes(w0) + seq!['-', '-']);
            }
            assert(out@ + sep_cells(widths.skip(i as int + 1)) =~= pre + sep_cells(ws));
        }
        i = i + 1;
    }
    proof {
        assert(sep_cells(widths.skip(widths.len() as int)) =~= Seq::<char>::empty());
        assert(out@ =~= seq!['+'] + sep_cells(widths));
    }
    out.append("\n");
    proof {
        reveal_strlit("\n");
        assert("\n"@ =~= seq!['\n']);
        assert(out@ =~= rendered_sep(widths));
    }
    out
}

} // verus!
