//! Character-sequence utilities shared by the splitter, the format
//! resolver and the table builder: splitting on a separator character,
//! trimming, locating a character, digit parsing, and ASCII
//! case-insensitive comparison.

use vstd::prelude::*;
use vstd::string::StrSliceExecFns;

verus! {

/// The cells a row holds.
pub open spec fn row_view(row: Vec<String>) -> Seq<Seq<char>> {
    row@.map_values(|c: String| c@)
}

/// The rows a table holds.
pub open spec fn rows_view(rows: Vec<Vec<String>>) -> Seq<Seq<Seq<char>>> {
    rows@.map_values(|r: Vec<String>| row_view(r))
}

/// The cells a string falls into when cut at every occurrence of `sep`:
/// two adjacent separators enclose an empty cell, and a string without
/// any separator is one single cell.
pub open spec fn split_cells(s: Seq<char>, sep: char) -> Seq<Seq<char>>
    decreases s.len(),
{
    if s.len() == 0 {
        seq![Seq::<char>::empty()]
    } else if s.last() == sep {
        split_cells(s.drop_last(), sep).push(Seq::<char>::empty())
    } else {
        let r = split_cells(s.drop_last(), sep);
        r.update(r.len() - 1, r.last().push(s.last()))
    }
}

pub proof fn lemma_split_cells_len(s: Seq<char>, sep: char)
    ensures
        split_cells(s, sep).len() >= 1,
    decreases s.len(),
{
    if s.len() > 0 {
        lemma_split_cells_len(s.drop_last(), sep);
    }
}

/// Splits `line` at every occurrence of `sep`, keeping empty cells.
pub fn split_on_char(line: &str, sep: char) -> (r: Vec<String>)
    ensures
        r@.map_values(|c: String| c@) == split_cells(line@, sep),
{
    let n = line.unicode_len();
    let mut cells: Vec<String> = Vec::new();
    let mut start: usize = 0;
    let mut i: usize = 0;
    proof {
        assert(line@.take(0) =~= Seq::<char>::empty());
        assert(cells@.map_values(|c: String| c@).push(line@.subrange(0, 0))
            =~= seq![Seq::<char>::empty()]);
    }
    while i < n
        invariant
            n == line@.len(),
            0 <= start <= i <= n,
            cells@.map_values(|c: String| c@).push(line@.subrange(start as int, i as int))
                == split_cells(line@.take(i as int), sep),
        decreases n - i,
    {
        let c = line.get_char(i);
        proof {
            assert(line@.take(i as int + 1).drop_last() =~= line@.take(i as int));
            assert(line@.take(i as int + 1).last() == line@[i as int]);
        }
        if c == sep {
            let ghost pre = cells@.map_values(|c: String| c@);
            let ghost s0 = start as int;
            let cell = line.substring_char(start, i).to_owned();
            cells.push(cell);
            start = i + 1;
            proof {
                let cv = cells@.map_values(|c: String| c@);
                assert(cv =~= pre.push(line@.subrange(s0, i as int)));
                assert(cv =~= split_cells(line@.take(i as int), sep));
                assert(line@.subrange(i as int + 1, i as int + 1) =~= Seq::<char>::empty());
                assert(cv.push(line@.subrange(start as int, i as int + 1))
                    == split_cells(line@.take(i as int + 1), sep));
            }
        } else {
            proof {
                let prev = split_cells(line@.take(i as int), sep);
                lemma_split_cells_len(line@.take(i as int), sep);
                assert(prev.last() == line@.subrange(start as int, i as int));
                assert(line@.subrange(start as int, i as int).push(line@[i as int])
                    =~= line@.subrange(start as int, i as int + 1));
                assert(cells@.map_values(|c: String| c@)
                    .push(line@.subrange(start as int, i as int + 1))
                    =~= prev.update(prev.len() - 1, prev.last().push(line@[i as int])));
            }
        }
        i = i + 1;
    }
    let last_cell = line.substring_char(start, n).to_owned();
    cells.push(last_cell);
    proof {
        assert(line@.take(n as int) =~= line@);
        assert(cells@.map_values(|c: String| c@)
            =~= cells@.drop_last().map_values(|c: String| c@).push(line@.subrange(
            start as int,
            n as int,
        )));
    }
    cells
}

/// Index of the first occurrence of `c` in `s`, if any.
pub open spec fn find_char(s: Seq<char>, c: char) -> Option<int>
    decreases s.len(),
{
    if s.len() == 0 {
        None
    } else if s[0] == c {
        Some(0)
    } else {
        match find_char(s.skip(1), c) {
            Some(i) => Some(i + 1),
            None => None,
        }
    }
}

pub proof fn lemma_find_char(s: Seq<char>, c: char)
    ensures
        match find_char(s, c) {
            Some(i) => 0 <= i < s.len() && s[i] == c && (forall|j: int|
                0 <= j < i ==> s[j] != c),
            None => forall|j: int| 0 <= j < s.len() ==> s[j] != c,
        },
    decreases s.len(),
{
    if s.len() > 0 && s[0] != c {
        lemma_find_char(s.skip(1), c);
        assert(forall|j: int| 1 <= j < s.len() ==> #[trigger] s[j] == s.skip(1)[j - 1]);
    }
}

/// Finds the first occurrence of `c` in `s`.
pub fn find_char_at(s: &str, c: char) -> (r: Option<usize>)
    ensures
        match r {
            Some(i) => find_char(s@, c) == Some(i as int),
            None => find_char(s@, c) is None,
        },
{
    let n = s.unicode_len();
    let mut i: usize = 0;
    while i < n
        invariant
            n == s@.len(),
            0 <= i <= n,
            forall|j: int| 0 <= j < i ==> s@[j] != c,
        decreases n - i,
    {
        if s.get_char(i) == c {
            proof {
                lemma_find_char(s@, c);
            }
            return Some(i);
        }
        i = i + 1;
    }
    proof {
        lemma_find_char(s@, c);
    }
    None
}

/// Whether a character counts as white space when a token is trimmed;
/// abstract here, the Unicode White_Space property decides it.
pub uninterp spec fn white_space(c: char) -> bool;

/// Relies on char::is_whitespace: whether a character has the Unicode
/// White_Space property depends on the character alone.
#[verifier::external_body]
pub(crate) fn is_white_space(c: char) -> (r: bool)
    ensures
        r == white_space(c),
{
    c.is_whitespace()
}

/// `s` without its leading white space.
pub open spec fn trim_start_spec(s: Seq<char>) -> Seq<char>
    decreases s.len(),
{
    if s.len() > 0 && white_space(s[0]) {
        trim_start_spec(s.skip(1))
    } else {
        s
    }
}

/// `s` without its trailing white space.
pub open spec fn trim_end_spec(s: Seq<char>) -> Seq<char>
    decreases s.len(),
{
    if s.len() > 0 && white_space(s.last()) {
        trim_end_spec(s.drop_last())
    } else {
        s
    }
}

/// `s` without leading and trailing white space.
pub open spec fn trim_spec(s: Seq<char>) -> Seq<char> {
    trim_end_spec(trim_start_spec(s))
}

proof fn lemma_trim_start_subrange(s: Seq<char>, k: int)
    requires
        0 <= k <= s.len(),
        forall|j: int| 0 <= j < k ==> white_space(s[j]),
        k < s.len() ==> !white_space(s[k]),
    ensures
        trim_start_spec(s) == s.subrange(k, s.len() as int),
    decreases k,
{
    if k == 0 {
        if s.len() > 0 {
            assert(!white_space(s[0]));
        }
        assert(s.subrange(0, s.len() as int) =~= s);
    } else {
        assert(white_space(s[0]));
        lemma_trim_start_subrange(s.skip(1), k - 1);
        assert(s.skip(1).subrange(k - 1, s.skip(1).len() as int)
            =~= s.subrange(k, s.len() as int));
    }
}

proof fn lemma_trim_end_subrange(s: Seq<char>, k: int)
    requires
        0 <= k <= s.len(),
        forall|j: int| k <= j < s.len() ==> white_space(s[j]),
        k > 0 ==> !white_space(s[k - 1]),
    ensures
        trim_end_spec(s) == s.subrange(0, k),
    decreases s.len() - k,
{
    if k == s.len() {
        if s.len() > 0 {
            assert(!white_space(s.last()));
        }
        assert(s.subrange(0, s.len() as int) =~= s);
    } else {
        assert(white_space(s.last()));
        lemma_trim_end_subrange(s.drop_last(), k);
        assert(s.drop_last().subrange(0, k) =~= s.subrange(0, k));
    }
}

/// Trims white space from both ends of `s`.
pub fn trim(s: &str) -> (r: String)
    ensures
        r@ == trim_spec(s@),
{
    let n = s.unicode_len();
    let mut lo: usize = 0;
    while lo < n && is_white_space(s.get_char(lo))
        invariant
            n == s@.len(),
            0 <= lo <= n,
            forall|j: int| 0 <= j < lo ==> white_space(s@[j]),
        decreases n - lo,
    {
        lo = lo + 1;
    }
    let mut hi: usize = n;
    while hi > lo && is_white_space(s.get_char(hi - 1))
        invariant
            n == s@.len(),
            lo <= hi <= n,
            forall|j: int| 0 <= j < lo ==> white_space(s@[j]),
            forall|j: int| hi <= j < n ==> white_space(s@[j]),
        decreases hi,
    {
        hi = hi - 1;
    }
    proof {
        lemma_trim_start_subrange(s@, lo as int);
        let t = s@.subrange(lo as int, n as int);
        if hi > lo {
            lemma_trim_end_subrange(t, hi - lo);
        } else {
            lemma_trim_end_subrange(t, 0);
        }
        assert(t.subrange(0, hi - lo) =~= s@.subrange(lo as int, hi as int));
    }
    s.substring_char(lo, hi).to_owned()
}

pub open spec fn is_digit(c: char) -> bool {
    '0' as u32 <= c as u32 && c as u32 <= '9' as u32
}

pub open spec fn all_digits(s: Seq<char>) -> bool {
    s.len() > 0 && forall|i: int| 0 <= i < s.len() ==> is_digit(s[i])
}

/// The number a sequence of decimal digits denotes.
pub open spec fn digits_val(s: Seq<char>) -> int
    decreases s.len(),
{
    if s.len() == 0 {
        0
    } else {
        digits_val(s.drop_last()) * 10 + (s.last() as u32 - '0' as u32)
    }
}

/// The number a token denotes, if it is a well-formed decimal integer:
/// an optional leading `+`, then one or more digits.
pub open spec fn parse_usize_spec(s: Seq<char>) -> Option<int> {
    let d = if s.len() > 0 && s[0] == '+' {
        s.skip(1)
    } else {
        s
    };
    if all_digits(d) {
        Some(digits_val(d))
    } else {
        None
    }
}

proof fn lemma_digits_val_nonneg(s: Seq<char>)
    requires
        forall|i: int| 0 <= i < s.len() ==> is_digit(s[i]),
    ensures
        digits_val(s) >= 0,
    decreases s.len(),
{
    if s.len() > 0 {
        lemma_digits_val_nonneg(s.drop_last());
    }
}

proof fn lemma_digits_val_prefix_le(s: Seq<char>, k: int)
    requires
        forall|i: int| 0 <= i < s.len() ==> is_digit(s[i]),
        0 <= k <= s.len(),
    ensures
        digits_val(s.take(k)) <= digits_val(s),
    decreases s.len() - k,
{
    if k < s.len() {
        lemma_digits_val_prefix_le(s, k + 1);
        let t = s.take(k + 1);
        assert(t.drop_last() =~= s.take(k));
        lemma_digits_val_nonneg(s.take(k));
        assert(digits_val(s.take(k)) <= digits_val(t)) by {
            assert(digits_val(t) == digits_val(s.take(k)) * 10 + (t.last() as u32
                - '0' as u32));
            assert(digits_val(s.take(k)) * 10 >= digits_val(s.take(k))) by (nonlinear_arith)
                requires
                    digits_val(s.take(k)) >= 0,
            ;
        }
    } else {
        assert(s.take(k) =~= s);
    }
}

/// Parses a decimal integer token (optional `+`, then digits), returning
/// the value when it is well formed and representable.
pub fn parse_usize_token(s: &str) -> (r: Option<usize>)
    ensures
        match parse_usize_spec(s@) {
            Some(v) => v >= 0 && (if v <= usize::MAX {
                r == Some(v as usize)
            } else {
                r is None
            }),
            None => r is None,
        },
{
    let n = s.unicode_len();
    let start: usize = if n > 0 && s.get_char(0) == '+' {
        1
    } else {
        0
    };
    let ghost d = if s@.len() > 0 && s@[0] == '+' {
        s@.skip(1)
    } else {
        s@
    };
    proof {
        assert(d =~= s@.subrange(start as int, n as int));
    }
    if start >= n {
        // empty token, or a lone sign
        assert(!all_digits(d));
        return None;
    }
    let mut acc: usize = 0;
    let mut i: usize = start;
    while i < n
        invariant
            n == s@.len(),
            start <= i <= n,
            start == 1 <==> n > 0 && s@[0] == '+',
            start == 0 || start == 1,
            d == s@.subrange(start as int, n as int),
            d == (if s@.len() > 0 && s@[0] == '+' {
                s@.skip(1)
            } else {
                s@
            }),
            start < n,
            forall|j: int| 0 <= j < i - start ==> is_digit(d[j]),
            acc == digits_val(d.take(i - start)),
        decreases n - i,
    {
        let c = s.get_char(i);
        let cu = c as u32;
        if cu < '0' as u32 || cu > '9' as u32 {
            assert(!is_digit(d[i - start]));
            assert(!all_digits(d));
            return None;
        }
        let digit = (cu - 48) as usize;
        proof {
            assert(d.take(i - start + 1).drop_last() =~= d.take(i - start));
            assert(d.take(i - start + 1).last() == d[i - start]);
        }
        if acc > (usize::MAX - digit) / 10 {
            // the value no longer fits; the token is silently rejected
            proof {
                let w = i - start + 1;
                assert(digits_val(d.take(w)) == acc * 10 + digit);
                assert(acc * 10 + digit > usize::MAX) by (nonlinear_arith)
                    requires
                        acc > (usize::MAX - digit) / 10,
                        0 <= digit <= 9,
                ;
                if all_digits(d) {
                    lemma_digits_val_prefix_le(d, w);
                    lemma_digits_val_nonneg(d);
                }
            }
            return None;
        }
        proof {
            assert(acc * 10 + digit <= usize::MAX) by (nonlinear_arith)
                requires
                    acc <= (usize::MAX - digit) / 10,
                    0 <= digit <= 9,
                    acc >= 0,
            ;
        }
        acc = acc * 10 + digit;
        i = i + 1;
    }
    proof {
        assert(d.take(n - start) =~= d);
        assert(all_digits(d));
        lemma_digits_val_nonneg(d);
    }
    Some(acc)
}

/// Whether `a` is `b` up to ASCII case, `b` being a lower-case letter of
/// the expected keyword.
pub open spec fn eq_ci_char(a: char, b: char) -> bool {
    a == b || (97 <= b as u32 <= 122 && a as u32 + 32 == b as u32)
}

/// Whether token `t` matches the lower-case keyword `w` up to ASCII case.
pub open spec fn eq_ci(t: Seq<char>, w: Seq<char>) -> bool {
    t.len() == w.len() && forall|i: int| 0 <= i < t.len() ==> eq_ci_char(t[i], w[i])
}

/// Compares token `t` with the lower-case keyword `w` up to ASCII case.
pub fn eq_ignore_ascii_case(t: &str, w: &str) -> (r: bool)
    ensures
        r == eq_ci(t@, w@),
{
    let tn = t.unicode_len();
    let wn = w.unicode_len();
    if tn != wn {
        return false;
    }
    let mut i: usize = 0;
    while i < tn
        invariant
            tn == t@.len(),
            wn == w@.len(),
            tn == wn,
            0 <= i <= tn,
            forall|j: int| 0 <= j < i ==> eq_ci_char(t@[j], w@[j]),
        decreases tn - i,
    {
        let tc = t.get_char(i) as u32;
        let wc = w.get_char(i) as u32;
        if !(tc == wc || (97 <= wc && wc <= 122 && wc >= 32 && tc == wc - 32)) {
            assert(!eq_ci_char(t@[i as int], w@[i as int]));
            return false;
        }
        i = i + 1;
    }
    true
}

} // verus!
