//! Splicing one row's style directives into another.
use vstd::prelude::*;
use crate::effect::{Effect, EffectType, Style, styles};

verus! {

/// Positions within `[0, bound]`, in non-decreasing order.
pub open spec fn ordered_within(v: Seq<Style>, bound: nat) -> bool {
    &&& forall|i: int| 0 <= i < v.len() ==> #[trigger] v[i].pos <= bound
    &&& forall|i: int, j: int| 0 <= i <= j < v.len() ==> #[trigger] v[i].pos <= #[trigger] v[j].pos
}

/// Length of the leading run of directives placed before column `x`.
pub open spec fn lead_before(v: Seq<Style>, x: nat) -> nat
    decreases v.len(),
{
    if v.len() == 0 || v[0].pos >= x {
        0
    } else {
        1 + lead_before(v.drop_first(), x)
    }
}

/// Index just past the last reset placed at or before column `e` (0 if there is none).
pub open spec fn reset_cut(v: Seq<Style>, e: nat) -> nat
    decreases v.len(),
{
    if v.len() == 0 {
        0
    } else if v.last().kind == EffectType::Reset && v.last().pos <= e {
        v.len()
    } else {
        reset_cut(v.drop_last(), e)
    }
}

/// Every directive moved `d` columns to the right.
pub open spec fn shifted(v: Seq<Style>, d: nat) -> Seq<Style> {
    v.map_values(|s: Style| Style { pos: s.pos + d, ..s })
}

/// Every directive at or before column `e` moved forward to `e`.
pub open spec fn clamped(v: Seq<Style>, e: nat) -> Seq<Style> {
    v.map_values(|s: Style| Style { pos: if s.pos <= e { e } else { s.pos }, ..s })
}

/// The directives of a row after columns `[x, x + w)` are overwritten by a block
/// whose own directives are `src`: those before `x` stay, the block's follow moved
/// by `x`, then those after the last reset at or before `x + w`, moved up to `x + w`.
pub open spec fn splice_styles(v: Seq<Style>, x: nat, w: nat, src: Seq<Style>) -> Seq<Style> {
    v.take(lead_before(v, x) as int) + shifted(src, x) + clamped(v.skip(reset_cut(v, x + w) as int), x + w)
}

proof fn lemma_styles_push(s: Seq<Effect>, e: Effect)
    ensures
        styles(s.push(e)) == styles(s).push(e@),
{
    assert(styles(s.push(e)) =~= styles(s).push(e@));
}

proof fn lemma_lead_before(v: Seq<Style>, x: nat)
    ensures
        lead_before(v, x) <= v.len(),
        forall|i: int| 0 <= i < lead_before(v, x) ==> #[trigger] v[i].pos < x,
    decreases v.len(),
{
    if v.len() > 0 && v[0].pos < x {
        lemma_lead_before(v.drop_first(), x);
        assert forall|i: int| 0 <= i < lead_before(v, x) implies #[trigger] v[i].pos < x by {
            if i > 0 {
                assert(v[i] == v.drop_first()[i - 1]);
            }
        }
    }
}

proof fn lemma_reset_cut(v: Seq<Style>, e: nat)
    ensures
        reset_cut(v, e) <= v.len(),
    decreases v.len(),
{
    if v.len() > 0 {
        lemma_reset_cut(v.drop_last(), e);
    }
}

/// Splicing ordered directives gives ordered directives within the row's width.
pub proof fn lemma_splice_styles_ordered(v: Seq<Style>, x: nat, w: nat, total: nat, src: Seq<Style>)
    requires
        ordered_within(v, total),
        ordered_within(src, w),
        x + w <= total,
    ensures
        ordered_within(splice_styles(v, x, w, src), total),
{
    lemma_lead_before(v, x);
    lemma_reset_cut(v, x + w);
    let a = v.take(lead_before(v, x) as int);
    let b = shifted(src, x);
    let c = clamped(v.skip(reset_cut(v, x + w) as int), x + w);
    let out = splice_styles(v, x, w, src);
    assert(out =~= a + b + c);
    let la = a.len() as int;
    let lb = b.len() as int;
    assert forall|i: int| 0 <= i < out.len() implies #[trigger] out[i].pos <= total by {
        if i < la {
            assert(out[i] == v[i]);
        } else if i < la + lb {
            assert(out[i] == b[i - la]);
        } else {
            assert(out[i] == c[i - la - lb]);
            assert(v.skip(reset_cut(v, x + w) as int)[i - la - lb] == v[reset_cut(v, x + w) + i - la - lb]);
        }
    }
    assert forall|i: int, j: int| 0 <= i <= j < out.len() implies #[trigger] out[i].pos
        <= #[trigger] out[j].pos by {
        let k = reset_cut(v, x + w) as int;
        if j < la {
            assert(out[i] == v[i] && out[j] == v[j]);
        } else if j < la + lb {
            assert(out[j] == b[j - la]);
            if i < la {
                assert(out[i] == v[i]);
            } else {
                assert(out[i] == b[i - la]);
                assert(src[i - la].pos <= src[j - la].pos);
            }
        } else {
            assert(out[j] == c[j - la - lb]);
            assert(v.skip(k)[j - la - lb] == v[k + j - la - lb]);
            if i < la {
                assert(out[i] == v[i]);
            } else if i < la + lb {
                assert(out[i] == b[i - la]);
                assert(src[i - la].pos <= w);
            } else {
                assert(out[i] == c[i - la - lb]);
                assert(v.skip(k)[i - la - lb] == v[k + i - la - lb]);
                assert(v[k + i - la - lb].pos <= v[k + j - la - lb].pos);
            }
        }
    }
}

/// Splicing a row's own directives over its full width gives them back, when
/// they are ordered and end with a reset (as a color bracket does).
pub proof fn lemma_splice_styles_own(v: Seq<Style>, total: nat)
    requires
        ordered_within(v, total),
        v.len() > 0 ==> v.last().kind == EffectType::Reset,
    ensures
        splice_styles(v, 0, total, v) == v,
{
    assert(lead_before(v, 0) == 0);
    if v.len() > 0 {
        assert(v.last().pos <= total);
    }
    assert(reset_cut(v, total) == v.len());
    assert(v.take(0) =~= Seq::<Style>::empty());
    assert(v.skip(v.len() as int) =~= Seq::<Style>::empty());
    assert(shifted(v, 0) =~= v);
    assert(clamped(Seq::<Style>::empty(), total) =~= Seq::<Style>::empty());
    assert(splice_styles(v, 0, total, v) =~= v);
}

/// The directives of `v` with columns `[x, x + w)` overwritten by a block whose
/// directives are `src`.
pub fn splice_effects(v: &Vec<Effect>, x: usize, w: usize, src: &Vec<Effect>) -> (out: Vec<Effect>)
    requires
        ordered_within(styles(src@), w as nat),
        x + w <= usize::MAX,
    ensures
        styles(out@) == splice_styles(styles(v@), x as nat, w as nat, styles(src@)),
{
    let ghost sv = styles(v@);
    let ghost ss = styles(src@);
    let e = x + w;
    let mut out: Vec<Effect> = Vec::new();
    let mut i: usize = 0;
    assert(sv.skip(0) =~= sv);
    while i < v.len() && v[i].pos < x
        invariant
            i <= v.len(),
            sv == styles(v@),
            lead_before(sv, x as nat) == i + lead_before(sv.skip(i as int), x as nat),
            styles(out@) == sv.take(i as int),
        decreases v.len() - i,
    {
        let ghost prev = out@;
        let item = v[i].at(v[i].pos);
        out.push(item);
        proof {
            lemma_styles_push(prev, item);
        }
        proof {
            assert(sv.skip(i as int).drop_first() =~= sv.skip(i + 1));
        }
        i += 1;
        assert(styles(out@) =~= sv.take(i as int));
    }
    let ghost lead = styles(out@);
    let mut k: usize = 0;
    while k < src.len()
        invariant
            k <= src.len(),
            ss == styles(src@),
            ordered_within(ss, w as nat),
            x + w <= usize::MAX,
            styles(out@) == lead + shifted(ss, x as nat).take(k as int),
        decreases src.len() - k,
    {
        assert(ss[k as int].pos <= w);
        let ghost prev = out@;
        let item = src[k].at(src[k].pos + x);
        out.push(item);
        proof {
            lemma_styles_push(prev, item);
        }
        k += 1;
        assert(styles(out@) =~= lead + shifted(ss, x as nat).take(k as int));
    }
    assert(shifted(ss, x as nat).take(k as int) =~= shifted(ss, x as nat));
    let ghost mid = styles(out@);
    let mut j: usize = v.len();
    assert(sv.take(j as int) =~= sv);
    while j > 0 && !(v[j - 1].kind == EffectType::Reset && v[j - 1].pos <= e)
        invariant
            j <= v.len(),
            sv == styles(v@),
            reset_cut(sv, e as nat) == reset_cut(sv.take(j as int), e as nat),
        decreases j,
    {
        assert(sv.take(j as int).drop_last() =~= sv.take(j - 1));
        j -= 1;
    }
    if j > 0 {
        assert(sv.take(j as int).last() == sv[j - 1]);
    }
    let ghost cut = j as int;
    assert(sv.len() == v@.len());
    assert(reset_cut(sv, e as nat) == j);
    while j < v.len()
        invariant
            0 <= cut <= j <= v.len(),
            sv == styles(v@),
            sv.len() == v.len(),
            styles(out@) == mid + clamped(sv.skip(cut), e as nat).take(j - cut),
        decreases v.len() - j,
    {
        assert(sv.skip(cut)[j - cut] == sv[j as int]);
        assert(sv[j as int] == v@[j as int]@);
        let p = if v[j].pos <= e { e } else { v[j].pos };
        let ghost prev = out@;
        let item = v[j].at(p);
        out.push(item);
        proof {
            lemma_styles_push(prev, item);
        }
        j += 1;
        assert(styles(out@) =~= mid + clamped(sv.skip(cut), e as nat).take(j - cut));
    }
    assert(clamped(sv.skip(cut), e as nat).take(j - cut) =~= clamped(sv.skip(cut), e as nat));
    assert(styles(out@) =~= splice_styles(sv, x as nat, w as nat, ss));
    out
}

} // verus!
