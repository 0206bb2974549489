//! Display-width measurement and small string-building helpers.
//!
//! Widths are counted in terminal columns, not characters: an East-Asian wide
//! glyph occupies two columns. The per-character column count comes from the
//! `unicode_width` crate; everything built on it is defined and verified here.

use vstd::prelude::*;
use vstd::string::StrSliceExecFns;

verus! {

/// The columns one character occupies on the terminal, as the width backend
/// reports them (a control character counts as zero).
pub uninterp spec fn char_columns(c: char) -> usize;

/// Display width of a sequence of characters: the sum of its characters'
/// columns.
pub open spec fn str_columns(s: Seq<char>) -> int
    decreases s.len(),
{
    if s.len() == 0 {
        0
    } else {
        str_columns(s.drop_last()) + char_columns(s.last())
    }
}

pub proof fn lemma_str_columns_nonneg(s: Seq<char>)
    ensures
        str_columns(s) >= 0,
    decreases s.len(),
{
    if s.len() > 0 {
        lemma_str_columns_nonneg(s.drop_last());
    }
}

pub proof fn lemma_str_columns_singleton(c: char)
    ensures
        str_columns(seq![c]) == char_columns(c),
{
    assert(seq![c].drop_last() =~= Seq::<char>::empty());
    assert(str_columns(Seq::<char>::empty()) == 0);
    assert(seq![c].last() == c);
}

/// Appending one character widens a string by that character's columns.
pub proof fn lemma_str_columns_push(s: Seq<char>, c: char)
    ensures
        str_columns(s.push(c)) == str_columns(s) + char_columns(c),
{
    assert(s.push(c).drop_last() =~= s);
    assert(s.push(c).last() == c);
}

pub proof fn lemma_str_columns_concat(a: Seq<char>, b: Seq<char>)
    ensures
        str_columns(a + b) == str_columns(a) + str_columns(b),
    decreases b.len(),
{
    if b.len() == 0 {
        assert(a + b =~= a);
    } else {
        lemma_str_columns_concat(a, b.drop_last());
        assert((a + b).drop_last() =~= a + b.drop_last());
        assert((a + b).last() == b.last());
    }
}

/// A prefix of a string is no wider than the string.
pub proof fn lemma_str_columns_take_le(s: Seq<char>, i: int)
    requires
        0 <= i <= s.len(),
    ensures
        str_columns(s.take(i)) <= str_columns(s),
{
    assert(s =~= s.take(i) + s.skip(i));
    lemma_str_columns_concat(s.take(i), s.skip(i));
    lemma_str_columns_nonneg(s.skip(i));
}

pub proof fn lemma_str_columns_take_step(s: Seq<char>, i: int)
    requires
        0 <= i < s.len(),
    ensures
        str_columns(s.take(i + 1)) == str_columns(s.take(i)) + char_columns(s[i]),
{
    assert(s.take(i + 1).drop_last() =~= s.take(i));
    assert(s.take(i + 1).last() == s[i]);
}

/// Relies on `unicode_width::UnicodeWidthChar::width`: the displayed columns
/// of one character, `None` for a control character.
#[verifier::external_body]
pub(crate) fn char_display_width(c: char) -> (r: usize)
    ensures
        r == char_columns(c),
{
    unicode_width::UnicodeWidthChar::width(c).unwrap_or(0)
}

/// Relies on `String::push` appending exactly the given character.
pub assume_specification[ String::push ](s: &mut String, ch: char)
    ensures
        final(s)@ == old(s)@.push(ch),
;

/// The characters of a string slice, in order.
pub(crate) fn chars_of(s: &str) -> (r: Vec<char>)
    ensures
        r@ == s@,
{
    let n: usize = s.unicode_len();
    let mut r: Vec<char> = Vec::new();
    let mut i: usize = 0;
    while i < n
        invariant
            i <= n,
            n == s@.len(),
            r@ == s@.take(i as int),
        decreases n - i,
    {
        r.push(s.get_char(i));
        i = i + 1;
        proof {
            assert(r@ =~= s@.take(i as int));
        }
    }
    proof {
        assert(r@ =~= s@);
    }
    r
}

/// Display width of a character sequence.
pub(crate) fn display_width(s: &Vec<char>) -> (w: usize)
    requires
        str_columns(s@) <= usize::MAX,
    ensures
        w == str_columns(s@),
{
    let n: usize = s.len();
    let mut w: usize = 0;
    let mut i: usize = 0;
    while i < n
        invariant
            i <= n,
            n == s@.len(),
            str_columns(s@) <= usize::MAX,
            w == str_columns(s@.take(i as int)),
        decreases n - i,
    {
        proof {
            lemma_str_columns_take_step(s@, i as int);
            lemma_str_columns_take_le(s@, i + 1);
        }
        w = w + char_display_width(s[i]);
        i = i + 1;
    }
    proof {
        assert(s@.take(n as int) =~= s@);
    }
    w
}

/// Display width of a string slice.
pub(crate) fn str_display_width(s: &str) -> (w: usize)
    requires
        str_columns(s@) <= usize::MAX,
    ensures
        w == str_columns(s@),
{
    let v: Vec<char> = chars_of(s);
    display_width(&v)
}

/// Display width of a character sequence, or `None` where the sum does not
/// fit in `usize`.
pub(crate) fn try_display_width(s: &Vec<char>) -> (r: Option<usize>)
    ensures
        (match r {
            Some(w) => str_columns(s@) <= usize::MAX && w == str_columns(s@),
            None => str_columns(s@) > usize::MAX,
        }),
{
    let n: usize = s.len();
    let mut w: usize = 0;
    let mut i: usize = 0;
    while i < n
        invariant
            i <= n,
            n == s@.len(),
            w == str_columns(s@.take(i as int)),
        decreases n - i,
    {
        proof {
            lemma_str_columns_take_step(s@, i as int);
        }
        let c: usize = char_display_width(s[i]);
        if c > usize::MAX - w {
            proof {
                lemma_str_columns_nonneg(s@.skip(i + 1));
                assert(s@ =~= s@.take(i + 1) + s@.skip(i + 1));
                lemma_str_columns_concat(s@.take(i + 1), s@.skip(i + 1));
            }
            return None;
        }
        w = w + c;
        i = i + 1;
    }
    proof {
        assert(s@.take(n as int) =~= s@);
    }
    Some(w)
}

/// `n` copies of one character.
pub open spec fn repeat_char(c: char, n: int) -> Seq<char> {
    Seq::new(n as nat, |i: int| c)
}

/// Appends `n` copies of `c` to `out`.
pub(crate) fn push_fill(out: &mut String, c: char, n: usize)
    ensures
        final(out)@ == old(out)@ + repeat_char(c, n as int),
{
    let mut i: usize = 0;
    while i < n
        invariant
            i <= n,
            out@ == old(out)@ + repeat_char(c, i as int),
        decreases n - i,
    {
        out.push(c);
        i = i + 1;
        proof {
            assert(out@ =~= old(out)@ + repeat_char(c, i as int));
        }
    }
}

/// Appends the characters of `s` to `out`.
pub(crate) fn push_chars(out: &mut String, s: &Vec<char>)
    ensures
        final(out)@ == old(out)@ + s@,
{
    let n: usize = s.len();
    let mut i: usize = 0;
    while i < n
        invariant
            i <= n,
            n == s@.len(),
            out@ == old(out)@ + s@.take(i as int),
        decreases n - i,
    {
        out.push(s[i]);
        i = i + 1;
        proof {
            assert(out@ =~= old(out)@ + s@.take(i as int));
        }
    }
    proof {
        assert(old(out)@ + s@.take(n as int) =~= old(out)@ + s@);
    }
}

} // verus!
