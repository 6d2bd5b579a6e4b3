//! Per-column alignment: the alignment mapping and the format resolver
//! that builds it from a `col:mode,col:mode,...` specification string.

use vstd::prelude::*;
use vstd::string::StrSliceExecFns;
use crate::text::{
    eq_ci, eq_ignore_ascii_case, find_char, find_char_at, lemma_find_char, parse_usize_spec,
    parse_usize_token, split_cells, split_on_char, trim, trim_spec,
};

verus! {

/// How a cell is padded inside its column.
#[derive(Clone, Copy, Debug, PartialEq, Eq, Structural)]
pub enum Alignment {
    Left,
    Right,
    Center,
}

/// The alignment that a list of `(column, alignment)` entries, applied in
/// order, leaves on `col`: the last entry for `col` wins, and a column
/// with no entry is left-aligned.
pub open spec fn align_in(entries: Seq<(usize, Alignment)>, col: int) -> Alignment
    decreases entries.len(),
{
    if entries.len() == 0 {
        Alignment::Left
    } else if entries.last().0 == col {
        entries.last().1
    } else {
        align_in(entries.drop_last(), col)
    }
}

/// Mapping from zero-based column index to alignment; columns without an
/// entry default to `Left`, and later entries overwrite earlier ones.
pub struct AlignmentMap {
    pub entries: Vec<(usize, Alignment)>,
}

impl AlignmentMap {
    /// The alignment of column `col`.
    pub open spec fn align_at(&self, col: int) -> Alignment {
        align_in(self.entries@, col)
    }

    pub fn new() -> (r: AlignmentMap)
        ensures
            r.entries@ == Seq::<(usize, Alignment)>::empty(),
    {
        AlignmentMap { entries: Vec::new() }
    }

    /// Records that column `col` is aligned as `a`, overwriting any
    /// earlier entry for `col`.
    pub fn set(&mut self, col: usize, a: Alignment)
        ensures
            final(self).entries@ == old(self).entries@.push((col, a)),
    {
        self.entries.push((col, a));
    }

    /// Looks the alignment of column `col` up.
    pub fn get(&self, col: usize) -> (r: Alignment)
        ensures
            r == self.align_at(col as int),
    {
        let mut i: usize = self.entries.len();
        proof {
            assert(self.entries@.take(self.entries@.len() as int) =~= self.entries@);
        }
        while i > 0
            invariant
                0 <= i <= self.entries@.len(),
                align_in(self.entries@, col as int) == align_in(
                    self.entries@.take(i as int),
                    col as int,
                ),
            decreases i,
        {
            let e = self.entries[i - 1];
            proof {
                assert(self.entries@.take(i as int).last() == self.entries@[i - 1]);
                assert(self.entries@.take(i as int).drop_last() =~= self.entries@.take(
                    i as int - 1,
                ));
            }
            if e.0 == col {
                return e.1;
            }
            i = i - 1;
        }
        proof {
            assert(self.entries@.take(0).len() == 0);
        }
        Alignment::Left
    }
}

/// The alignment a mode token resolves to: `right` and `center` up to
/// ASCII case; every other token means `Left`.
pub open spec fn mode_of(t: Seq<char>) -> Alignment {
    if eq_ci(t, seq!['r', 'i', 'g', 'h', 't']) {
        Alignment::Right
    } else if eq_ci(t, seq!['c', 'e', 'n', 't', 'e', 'r']) {
        Alignment::Center
    } else {
        Alignment::Left
    }
}

/// The entry one comma-separated part of the specification contributes:
/// the part is trimmed and cut at its first colon; the column token must
/// be a positive integer (1-based, and representable), else the part is
/// silently dropped.
pub open spec fn entry_of(part: Seq<char>) -> Option<(usize, Alignment)> {
    let p = trim_spec(part);
    match find_char(p, ':') {
        Some(k) => {
            let col_tok = trim_spec(p.take(k));
            let mode_tok = trim_spec(p.skip(k + 1));
            match parse_usize_spec(col_tok) {
                Some(v) => if 1 <= v <= usize::MAX {
                    Some(((v - 1) as usize, mode_of(mode_tok)))
                } else {
                    None
                },
                None => None,
            }
        },
        None => None,
    }
}

/// The entries that the parts of a specification string contribute, in
/// textual order.
pub open spec fn entries_of_parts(parts: Seq<Seq<char>>) -> Seq<(usize, Alignment)>
    decreases parts.len(),
{
    if parts.len() == 0 {
        Seq::empty()
    } else {
        entries_of_parts(parts.drop_last()) + (match entry_of(parts.last()) {
            Some(e) => seq![e],
            None => Seq::<(usize, Alignment)>::empty(),
        })
    }
}

/// The alignment mapping an optional specification string denotes.
pub open spec fn spec_alignments(format_spec: Option<Seq<char>>) -> Seq<(usize, Alignment)> {
    match format_spec {
        Some(s) => entries_of_parts(split_cells(s, ',')),
        None => Seq::empty(),
    }
}

/// Resolves one part of the specification to the entry it contributes.
fn resolve_entry(part: &str) -> (r: Option<(usize, Alignment)>)
    ensures
        r == entry_of(part@),
{
    let p = trim(part);
    match find_char_at(p.as_str(), ':') {
        Some(k) => {
            proof {
                lemma_find_char(p@, ':');
            }
            let n = p.as_str().unicode_len();
            let col_str = p.as_str().substring_char(0, k).to_owned();
            let align_str = p.as_str().substring_char(k + 1, n).to_owned();
            let col_tok = trim(col_str.as_str());
            let mode_tok = trim(align_str.as_str());
            proof {
                assert(p@.subrange(0, k as int) =~= p@.take(k as int));
                assert(p@.subrange(k as int + 1, p@.len() as int) =~= p@.skip(k as int + 1));
            }
            match parse_usize_token(col_tok.as_str()) {
                Some(v) => {
                    if v >= 1 {
                        let mode = if eq_ignore_ascii_case(mode_tok.as_str(), "right") {
                            proof {
                                reveal_strlit("right");
                                assert("right"@ =~= seq!['r', 'i', 'g', 'h', 't']);
                            }
                            Alignment::Right
                        } else if eq_ignore_ascii_case(mode_tok.as_str(), "center") {
                            proof {
                                reveal_strlit("right");
                                reveal_strlit("center");
                                assert("right"@ =~= seq!['r', 'i', 'g', 'h', 't']);
                                assert("center"@ =~= seq!['c', 'e', 'n', 't', 'e', 'r']);
                            }
                            Alignment::Center
                        } else {
                            proof {
                                reveal_strlit("right");
                                reveal_strlit("center");
                                assert("right"@ =~= seq!['r', 'i', 'g', 'h', 't']);
                                assert("center"@ =~= seq!['c', 'e', 'n', 't', 'e', 'r']);
                            }
                            Alignment::Left
                        };
                        Some((v - 1, mode))
                    } else {
                        None
                    }
                },
                None => None,
            }
        },
        None => None,
    }
}

/// Parses the `--format` specification string into the alignment mapping:
/// comma-separated `col:mode` entries, 1-based columns, later entries
/// overwriting earlier ones, malformed entries silently dropped.
pub fn parse_format_spec(format_spec: &Option<String>) -> (r: AlignmentMap)
    ensures
        r.entries@ == spec_alignments(match format_spec {
            Some(s) => Some(s@),
            None => None,
        }),
{
    let mut r = AlignmentMap::new();
    match format_spec {
        Some(s) => {
            let parts = split_on_char(s.as_str(), ',');
            let ghost pviews = parts@.map_values(|p: String| p@);
            let mut i: usize = 0;
            while i < parts.len()
                invariant
                    pviews == parts@.map_values(|p: String| p@),
                    0 <= i <= parts@.len(),
                    r.entries@ == entries_of_parts(pviews.take(i as int)),
                decreases parts@.len() - i,
            {
                proof {
                    assert(pviews.take(i as int + 1).drop_last() =~= pviews.take(i as int));
                    assert(pviews.take(i as int + 1).last() == pviews[i as int]);
                }
                match resolve_entry(parts[i].as_str()) {
                    Some(e) => {
                        r.set(e.0, e.1);
                        proof {
                            assert(r.entries@ =~= entries_of_parts(pviews.take(i as int + 1)));
                        }
                    },
                    None => {
                        proof {
                            assert(r.entries@ =~= entries_of_parts(pviews.take(i as int + 1)));
                        }
                    },
                }
                i = i + 1;
            }
            proof {
                assert(pviews.take(parts@.len() as int) =~= pviews);
            }
        },
        None => {},
    }
    r
}

} // verus!
