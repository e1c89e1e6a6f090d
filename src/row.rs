//! Splicing one row of characters into another, column-wise.
use vstd::prelude::*;
use crate::width::{
    char_cols, char_width, fit_prefix, fit_suffix, lemma_cols_concat, lemma_cols_push,
    lemma_fit_prefix, lemma_fit_suffix, lemma_spaces_cols, row_cols, spaces,
};

verus! {

/// The row `row` (`total` columns wide) with columns `[x, x + w)` replaced by `src`.
/// The longest prefix that fits in `x` columns and the longest suffix that fits
/// after `x + w` are kept; a wide character cut by either edge gives way to spaces.
pub open spec fn splice_row(row: Seq<char>, x: nat, w: nat, total: nat, src: Seq<char>) -> Seq<char> {
    let keep = (total - (x + w)) as nat;
    let pre = row.take(fit_prefix(row, x) as int);
    let suf = row.skip(row.len() - fit_suffix(row, keep));
    pre + spaces((x - row_cols(pre)) as nat) + src + spaces((keep - row_cols(suf)) as nat) + suf
}

/// Splicing keeps the row's width.
pub proof fn lemma_splice_row_cols(row: Seq<char>, x: nat, w: nat, total: nat, src: Seq<char>)
    requires
        row_cols(row) == total,
        x + w <= total,
        row_cols(src) == w,
        char_cols(' ') == 1,
    ensures
        row_cols(splice_row(row, x, w, total, src)) == total,
{
    let keep = (total - (x + w)) as nat;
    let pre = row.take(fit_prefix(row, x) as int);
    let suf = row.skip(row.len() - fit_suffix(row, keep));
    lemma_fit_prefix(row, x);
    lemma_fit_suffix(row, keep);
    let a = spaces((x - row_cols(pre)) as nat);
    let b = spaces((keep - row_cols(suf)) as nat);
    lemma_spaces_cols((x - row_cols(pre)) as nat);
    lemma_spaces_cols((keep - row_cols(suf)) as nat);
    lemma_cols_concat(pre, a);
    lemma_cols_concat(pre + a, src);
    lemma_cols_concat(pre + a + src, b);
    lemma_cols_concat(pre + a + src + b, suf);
}

/// Splicing leaves in place every character that ends at or before column `x`
/// and every character that starts at or after column `x + w`.
pub proof fn lemma_splice_row_keeps_outside(row: Seq<char>, x: nat, w: nat, total: nat, src: Seq<char>)
    requires
        x + w <= total,
    ensures
        forall|i: int|
            0 <= i <= row.len() && row_cols(#[trigger] row.take(i)) <= x ==> i <= splice_row(row, x, w, total, src).len()
                && splice_row(
                row,
                x,
                w,
                total,
                src,
            ).take(i) == row.take(i),
        forall|j: int|
            0 <= j <= row.len() && row_cols(#[trigger] row.skip(j)) <= total - (x + w) ==> {
                let out = splice_row(row, x, w, total, src);
                row.len() - j <= out.len() && out.skip(out.len() - (row.len() - j)) == row.skip(j)
            },
{
    let keep = (total - (x + w)) as nat;
    let l = fit_prefix(row, x) as int;
    let r = fit_suffix(row, keep) as int;
    let pre = row.take(l);
    let suf = row.skip(row.len() - r);
    let out = splice_row(row, x, w, total, src);
    let mid = spaces((x - row_cols(pre)) as nat) + src + spaces((keep - row_cols(suf)) as nat);
    lemma_fit_prefix(row, x);
    lemma_fit_suffix(row, keep);
    assert(out =~= pre + mid + suf);
    assert forall|i: int| 0 <= i <= row.len() && row_cols(#[trigger] row.take(i)) <= x implies i <= out.len()
        && out.take(i) == row.take(i) by {
        assert(i <= l);
        assert(out.take(i) =~= row.take(i));
    }
    assert forall|j: int| 0 <= j <= row.len() && row_cols(#[trigger] row.skip(j)) <= total - (x + w) implies ({
        let out = splice_row(row, x, w, total, src);
        row.len() - j <= out.len() && out.skip(out.len() - (row.len() - j)) == row.skip(j)
    }) by {
        assert(row.len() - r <= j);
        assert(out.skip(out.len() - (row.len() - j)) =~= row.skip(j));
    }
}

/// Splicing a row's own characters over its full width gives the row back, when
/// it neither starts nor ends with a zero-width character.
pub proof fn lemma_splice_row_own(row: Seq<char>, total: nat)
    requires
        row_cols(row) == total,
        row.len() > 0 ==> char_cols(row[0]) > 0 && char_cols(row.last()) > 0,
    ensures
        splice_row(row, 0, total, total, row) == row,
{
    assert(fit_prefix(row, 0) == 0);
    assert(fit_suffix(row, 0) == 0);
    assert(row.take(0) =~= Seq::<char>::empty());
    assert(row.skip(row.len() as int) =~= Seq::<char>::empty());
    assert(row_cols(Seq::<char>::empty()) == 0);
    assert(spaces(0) =~= Seq::<char>::empty());
    assert(splice_row(row, 0, total, total, row) =~= row);
}

fn push_range(out: &mut Vec<char>, v: &Vec<char>, lo: usize, hi: usize)
    requires
        lo <= hi <= v.len(),
    ensures
        final(out)@ == old(out)@ + v@.subrange(lo as int, hi as int),
{
    let mut i = lo;
    while i < hi
        invariant
            lo <= i <= hi <= v.len(),
            out@ == old(out)@ + v@.subrange(lo as int, i as int),
        decreases hi - i,
    {
        out.push(v[i]);
        i += 1;
        assert(v@.subrange(lo as int, i as int) =~= v@.subrange(lo as int, i - 1).push(v@[i - 1]));
    }
}

fn push_spaces(out: &mut Vec<char>, n: usize)
    ensures
        final(out)@ == old(out)@ + spaces(n as nat),
{
    let mut i: usize = 0;
    while i < n
        invariant
            i <= n,
            out@ == old(out)@ + spaces(i as nat),
        decreases n - i,
    {
        out.push(' ');
        i += 1;
        assert(spaces(i as nat) =~= spaces((i - 1) as nat).push(' '));
    }
}

/// The row `row` with columns `[x, x + w)` replaced by `src`.
pub fn splice_chars(row: &Vec<char>, x: usize, w: usize, total: usize, src: &Vec<char>) -> (out: Vec<char>)
    requires
        row_cols(row@) == total,
        x + w <= total,
    ensures
        out@ == splice_row(row@, x as nat, w as nat, total as nat, src@),
{
    let n = row.len();
    let keep = total - (x + w);
    proof {
        lemma_fit_prefix(row@, x as nat);
        lemma_fit_suffix(row@, keep as nat);
    }
    // Longest prefix no wider than x.
    let mut i: usize = 0;
    let mut left: usize = 0;
    assert(row@.skip(0) =~= row@);
    assert(row@.take(0) =~= Seq::<char>::empty());
    while i < n && char_width(row[i]) <= x - left
        invariant
            i <= n == row@.len(),
            left <= x,
            left == row_cols(row@.take(i as int)),
            fit_prefix(row@, x as nat) == i + fit_prefix(row@.skip(i as int), (x - left) as nat),
        decreases n - i,
    {
        let c = char_width(row[i]);
        proof {
            assert(row@.skip(i as int).drop_first() =~= row@.skip(i + 1));
            assert(row@.take(i + 1) =~= row@.take(i as int).push(row@[i as int]));
            lemma_cols_push(row@.take(i as int), row@[i as int]);
        }
        left = left + c;
        i = i + 1;
    }
    // Longest suffix no wider than keep.
    let mut j: usize = n;
    let mut right: usize = 0;
    assert(row@.take(n as int) =~= row@);
    assert(row@.skip(n as int) =~= Seq::<char>::empty());
    while j > 0 && char_width(row[j - 1]) <= keep - right
        invariant
            j <= n == row@.len(),
            right <= keep,
            right == row_cols(row@.skip(j as int)),
            fit_suffix(row@, keep as nat) == (n - j) + fit_suffix(row@.take(j as int), (keep - right) as nat),
        decreases j,
    {
        let c = char_width(row[j - 1]);
        proof {
            assert(row@.take(j as int).drop_last() =~= row@.take(j - 1));
            assert(row@.skip(j - 1).drop_first() =~= row@.skip(j as int));
        }
        right = right + c;
        j = j - 1;
    }
    assert(row@.take(i as int) =~= row@.subrange(0, i as int));
    let mut out: Vec<char> = Vec::new();
    push_range(&mut out, row, 0, i);
    push_spaces(&mut out, x - left);
    let mut k: usize = 0;
    while k < src.len()
        invariant
            k <= src.len(),
            out@ == row@.take(i as int) + spaces((x - left) as nat) + src@.take(k as int),
        decreases src.len() - k,
    {
        out.push(src[k]);
        k += 1;
        assert(src@.take(k as int) =~= src@.take(k - 1).push(src@[k - 1]));
    }
    assert(src@.take(k as int) =~= src@);
    push_spaces(&mut out, keep - right);
    push_range(&mut out, row, j, n);
    assert(row@.subrange(j as int, n as int) =~= row@.skip(j as int));
    out
}

} // verus!
