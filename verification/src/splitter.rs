//! The splitter: turns raw input lines into rows of cells, by a
//! regular-expression pattern, a literal separator character, or the tab
//! character by default.

use vstd::prelude::*;
use crate::text::{row_view, rows_view, split_cells, split_on_char};

verus! {

/// Whether a separator pattern is a valid regular expression; abstract
/// here, the regular-expression syntax decides it.
pub uninterp spec fn pattern_ok(pattern: Seq<char>) -> bool;

/// The cells a line falls into when split at every match of a separator
/// pattern; abstract here, the pattern's match semantics decide it.
pub uninterp spec fn pattern_split(pattern: Seq<char>, line: Seq<char>) -> Seq<Seq<char>>;

/// Relies on regex::Regex::new and regex::Regex::split: whether a
/// pattern compiles is decided by the pattern text alone, and the cells
/// that `split` yields (the substrings between the matches of the
/// pattern, in order, empty cells included) depend on the pattern and
/// the line alone.
#[verifier::external_body]
fn split_by_pattern(pattern: &str, line: &str) -> (r: Option<Vec<String>>)
    ensures
        r is Some <==> pattern_ok(pattern@),
        r matches Some(cells) ==> row_view(cells) == pattern_split(pattern@, line@),
{
    match regex::Regex::new(pattern) {
        Ok(re) => Some(re.split(line).map(|c| c.to_string()).collect()),
        Err(_) => None,
    }
}

/// An optional string, seen as the characters it holds.
pub open spec fn opt_str_view(o: Option<String>) -> Option<Seq<char>> {
    match o {
        Some(s) => Some(s@),
        None => None,
    }
}

/// The cells one line falls into under the active splitting mode: the
/// pattern if one was supplied, else the literal separator character if
/// one was supplied, else the tab character.
pub open spec fn line_cells(
    line: Seq<char>,
    pattern: Option<Seq<char>>,
    separator: Option<char>,
) -> Seq<Seq<char>> {
    match pattern {
        Some(p) => pattern_split(p, line),
        None => match separator {
            Some(c) => split_cells(line, c),
            None => split_cells(line, '\t'),
        },
    }
}

/// The rows a whole input falls into under the active splitting mode.
pub open spec fn spec_rows(
    lines: Seq<Seq<char>>,
    pattern: Option<Seq<char>>,
    separator: Option<char>,
) -> Seq<Seq<Seq<char>>> {
    lines.map_values(|l: Seq<char>| line_cells(l, pattern, separator))
}

/// Splits every input line into a row of cells. Returns `None` exactly
/// when a separator pattern was supplied that is not a valid regular
/// expression and there was at least one line to split it against.
pub fn parse_input(lines: &Vec<String>, pattern: &Option<String>, separator: &Option<char>) -> (r:
    Option<Vec<Vec<String>>>)
    ensures
        r is Some <==> (lines@.len() == 0 || (match *pattern {
            Some(p) => pattern_ok(p@),
            None => true,
        })),
        r matches Some(rows) ==> rows_view(rows) == spec_rows(
            lines@.map_values(|l: String| l@),
            opt_str_view(*pattern),
            *separator,
        ),
{
    let ghost lviews = lines@.map_values(|l: String| l@);
    let ghost pv = opt_str_view(*pattern);
    let mut rows: Vec<Vec<String>> = Vec::new();
    let mut i: usize = 0;
    proof {
        assert(rows_view(rows) =~= lviews.take(0).map_values(
            |l: Seq<char>| line_cells(l, pv, *separator),
        ));
    }
    while i < lines.len()
        invariant
            lviews == lines@.map_values(|l: String| l@),
            pv == opt_str_view(*pattern),
            0 <= i <= lines@.len(),
            i > 0 ==> (match *pattern {
                Some(p) => pattern_ok(p@),
                None => true,
            }),
            rows_view(rows) == lviews.take(i as int).map_values(
                |l: Seq<char>| line_cells(l, pv, *separator),
            ),
        decreases lines@.len() - i,
    {
        let cells: Vec<String> = match pattern {
            Some(p) => {
                match split_by_pattern(p.as_str(), lines[i].as_str()) {
                    Some(cs) => cs,
                    None => {
                        return None;
                    },
                }
            },
            None => {
                match separator {
                    Some(c) => split_on_char(lines[i].as_str(), *c),
                    None => split_on_char(lines[i].as_str(), '\t'),
                }
            },
        };
        proof {
            assert(row_view(cells) == line_cells(lviews[i as int], pv, *separator));
        }
        let ghost pre = rows_view(rows);
        rows.push(cells);
        proof {
            assert(rows_view(rows) =~= pre.push(row_view(cells)));
            let f = |l: Seq<char>| line_cells(l, pv, *separator);
            assert(lviews.take(i as int + 1).map_values(f) =~= lviews.take(i as int).map_values(
                f,
            ).push(f(lviews[i as int])));
        }
        i = i + 1;
    }
    proof {
        assert(lviews.take(lines@.len() as int) =~= lviews);
    }
    Some(rows)
}

} // verus!
