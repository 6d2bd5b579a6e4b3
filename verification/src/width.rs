//! Display-width computation: how many terminal columns a cell occupies.

use vstd::prelude::*;

verus! {

/// Display width, in terminal columns, of a character outside the ASCII
/// range; abstract here, the Unicode East-Asian-width conventions decide it.
pub uninterp spec fn other_char_width(c: char) -> nat;

/// Display width of one character in terminal columns: ASCII control
/// characters occupy no columns, printable ASCII characters one column,
/// and characters beyond the ASCII range whatever the Unicode
/// conventions assign them.
pub open spec fn char_width(c: char) -> nat {
    if (c as u32) < 0x20 {
        0
    } else if (c as u32) < 0x7f {
        1
    } else {
        other_char_width(c)
    }
}

/// Display width of a string: the sum of its characters' widths.
pub open spec fn seq_width(s: Seq<char>) -> nat
    decreases s.len(),
{
    if s.len() == 0 {
        0
    } else {
        seq_width(s.drop_last()) + char_width(s.last())
    }
}

/// Relies on unicode_width::UnicodeWidthStr::width: the displayed width of
/// a string is the sum over its characters of UnicodeWidthChar::width
/// (None, returned for a control character, counting as 0); printable
/// ASCII has width 1, and each character's width depends on that
/// character alone.
#[verifier::external_body]
pub(crate) fn display_width(s: &str) -> (r: usize)
    ensures
        r == seq_width(s@),
        s@.len() == 1 && s@[0] as u32 >= 0x7f ==> r == other_char_width(s@[0]),
{
    unicode_width::UnicodeWidthStr::width(s)
}

/// The width of a one-character string is that character's width.
pub proof fn lemma_seq_width_single(c: char)
    ensures
        seq_width(seq![c]) == char_width(c),
{
    let s = seq![c];
    assert(s.len() == 1);
    assert(s.last() == c);
    assert(s.drop_last() =~= Seq::<char>::empty());
    assert(seq_width(Seq::<char>::empty()) == 0);
    assert(seq_width(s) == seq_width(s.drop_last()) + char_width(s.last()));
}

/// The width of a concatenation is the sum of the widths.
pub proof fn lemma_seq_width_add(a: Seq<char>, b: Seq<char>)
    ensures
        seq_width(a + b) == seq_width(a) + seq_width(b),
    decreases b.len(),
{
    if b.len() == 0 {
        assert(a + b =~= a);
    } else {
        lemma_seq_width_add(a, b.drop_last());
        assert((a + b).drop_last() =~= a + b.drop_last());
        assert((a + b).last() == b.last());
    }
}

} // verus!
