//! Terminal column widths of characters and rows of characters.
use vstd::prelude::*;
use unicode_width::UnicodeWidthChar;

verus! {

/// What `unicode_width` reports as the column width of a character
/// (`None` for a control character).
pub uninterp spec fn unicode_width_of(c: char) -> Option<usize>;

/// Relies on `UnicodeWidthChar::width` of `unicode_width`: a table lookup on the
/// character alone; printable ASCII is one column wide.
#[verifier::external_body]
fn unicode_width(c: char) -> (r: Option<usize>)
    ensures
        r == unicode_width_of(c),
        ' ' <= c && c < '\x7f' ==> r == Some(1usize),
{
    c.width()
}

/// What `unicode_width` reports as the column width of a string.
pub uninterp spec fn unicode_str_width_of(s: Seq<char>) -> usize;

/// Relies on `UnicodeWidthStr::width` of `unicode_width`: the displayed width of
/// the string, which depends on its characters alone.
#[verifier::external_body]
pub(crate) fn text_width(s: &str) -> (r: usize)
    ensures
        r == unicode_str_width_of(s@),
{
    unicode_width::UnicodeWidthStr::width(s)
}

/// Columns a character occupies in the grid; a control character counts as two.
pub open spec fn char_cols(c: char) -> nat {
    match unicode_width_of(c) {
        Some(w) => w as nat,
        None => 2,
    }
}

/// Columns a row of characters occupies.
pub open spec fn row_cols(s: Seq<char>) -> nat
    decreases s.len(),
{
    if s.len() == 0 {
        0
    } else {
        char_cols(s[0]) + row_cols(s.drop_first())
    }
}

/// A row of `n` spaces.
pub open spec fn spaces(n: nat) -> Seq<char> {
    Seq::new(n, |i: int| ' ')
}

/// Columns of the character `c`, as the grid counts them.
pub fn char_width(c: char) -> (r: usize)
    ensures
        r == char_cols(c),
        ' ' <= c && c < '\x7f' ==> r == 1,
{
    match unicode_width(c) {
        Some(w) => w,
        None => 2,
    }
}

/// Whether the spaces the grid pads with are one column wide.
pub(crate) fn space_is_narrow() -> (r: bool)
    ensures
        r,
        char_cols(' ') == 1,
{
    unicode_width(' ') == Some(1usize)
}

/// Number of leading characters of `s` in the longest prefix at most `x` columns wide.
pub open spec fn fit_prefix(s: Seq<char>, x: nat) -> nat
    decreases s.len(),
{
    if s.len() == 0 || char_cols(s[0]) > x {
        0
    } else {
        1 + fit_prefix(s.drop_first(), (x - char_cols(s[0])) as nat)
    }
}

/// Number of trailing characters of `s` in the longest suffix at most `y` columns wide.
pub open spec fn fit_suffix(s: Seq<char>, y: nat) -> nat
    decreases s.len(),
{
    if s.len() == 0 || char_cols(s.last()) > y {
        0
    } else {
        1 + fit_suffix(s.drop_last(), (y - char_cols(s.last())) as nat)
    }
}

pub proof fn lemma_cols_concat(a: Seq<char>, b: Seq<char>)
    ensures
        row_cols(a + b) == row_cols(a) + row_cols(b),
    decreases a.len(),
{
    if a.len() > 0 {
        lemma_cols_concat(a.drop_first(), b);
        assert((a + b).drop_first() =~= a.drop_first() + b);
    } else {
        assert(a + b =~= b);
    }
}

pub proof fn lemma_cols_push(a: Seq<char>, c: char)
    ensures
        row_cols(a.push(c)) == row_cols(a) + char_cols(c),
{
    lemma_cols_concat(a, seq![c]);
    assert(a.push(c) =~= a + seq![c]);
    assert(seq![c].drop_first() =~= Seq::<char>::empty());
    assert(row_cols(seq![c].drop_first()) == 0);
    assert(row_cols(seq![c]) == char_cols(c));
}

pub proof fn lemma_cols_split(s: Seq<char>, i: int)
    requires
        0 <= i <= s.len(),
    ensures
        row_cols(s) == row_cols(s.take(i)) + row_cols(s.skip(i)),
{
    lemma_cols_concat(s.take(i), s.skip(i));
    assert(s.take(i) + s.skip(i) =~= s);
}

pub proof fn lemma_spaces_cols(n: nat)
    requires
        char_cols(' ') == 1,
    ensures
        row_cols(spaces(n)) == n,
    decreases n,
{
    if n > 0 {
        lemma_spaces_cols((n - 1) as nat);
        assert(spaces(n).drop_first() =~= spaces((n - 1) as nat));
    }
}

/// The kept prefix is no wider than `x`, and it is the longest such prefix.
pub proof fn lemma_fit_prefix(s: Seq<char>, x: nat)
    ensures
        fit_prefix(s, x) <= s.len(),
        row_cols(s.take(fit_prefix(s, x) as int)) <= x,
        forall|i: int| 0 <= i <= s.len() && row_cols(#[trigger] s.take(i)) <= x ==> i <= fit_prefix(s, x),
    decreases s.len(),
{
    if s.len() == 0 || char_cols(s[0]) > x {
        assert(s.take(0) =~= Seq::<char>::empty());
        assert forall|i: int| 0 <= i <= s.len() && row_cols(#[trigger] s.take(i)) <= x implies i <= 0 by {
            if i > 0 {
                assert(s.take(i).drop_first() =~= s.drop_first().take(i - 1));
            }
        }
    } else {
        let t = s.drop_first();
        let y = (x - char_cols(s[0])) as nat;
        lemma_fit_prefix(t, y);
        let k = fit_prefix(s, x) as int;
        assert(s.take(k).drop_first() =~= t.take(k - 1));
        assert forall|i: int| 0 <= i <= s.len() && row_cols(#[trigger] s.take(i)) <= x implies i <= k by {
            if i > 0 {
                assert(s.take(i).drop_first() =~= t.take(i - 1));
                assert(row_cols(t.take(i - 1)) <= y);
            }
        }
    }
}

/// The kept suffix is no wider than `y`, and it is the longest such suffix.
pub proof fn lemma_fit_suffix(s: Seq<char>, y: nat)
    ensures
        fit_suffix(s, y) <= s.len(),
        row_cols(s.skip(s.len() - fit_suffix(s, y))) <= y,
        forall|i: int| 0 <= i <= s.len() && row_cols(#[trigger] s.skip(i)) <= y ==> s.len() - fit_suffix(s, y) <= i,
    decreases s.len(),
{
    let n = s.len() as int;
    if s.len() == 0 || char_cols(s.last()) > y {
        assert(s.skip(n) =~= Seq::<char>::empty());
        assert forall|i: int| 0 <= i <= s.len() && row_cols(#[trigger] s.skip(i)) <= y implies n <= i by {
            if i < n {
                assert(s.skip(i) =~= s.skip(i).drop_last().push(s.last()));
                lemma_cols_push(s.skip(i).drop_last(), s.last());
            }
        }
    } else {
        let t = s.drop_last();
        let z = (y - char_cols(s.last())) as nat;
        lemma_fit_suffix(t, z);
        let k = fit_suffix(s, y) as int;
        assert(s.skip(n - k) =~= t.skip(n - k).push(s.last()));
        lemma_cols_push(t.skip(n - k), s.last());
        assert forall|i: int| 0 <= i <= s.len() && row_cols(#[trigger] s.skip(i)) <= y implies n - k <= i by {
            if i < n {
                assert(s.skip(i) =~= t.skip(i).push(s.last()));
                lemma_cols_push(t.skip(i), s.last());
                assert(row_cols(t.skip(i)) <= z);
            }
        }
    }
}

} // verus!
