//! Interleaving a row's characters with the escape sequences of its directives.
use vstd::prelude::*;
use crate::effect::{Effect, EffectType, Style, styles};
use crate::width::{char_cols, char_width, lemma_cols_push, lemma_cols_split, row_cols};
use crate::text::extend_chars;

verus! {

/// The printable form of a row whose next character starts at column `col`: each
/// directive's sequence is emitted before the first character that starts at its
/// column (or at the end, for the column just past the last character); a
/// directive whose column has already been passed is dropped.
pub open spec fn flat(row: Seq<char>, st: Seq<Style>, col: nat) -> Seq<char>
    decreases row.len() + st.len(),
{
    if st.len() > 0 && st[0].pos < col {
        flat(row, st.drop_first(), col)
    } else if st.len() > 0 && st[0].pos == col {
        st[0].code + flat(row, st.drop_first(), col)
    } else if row.len() > 0 {
        seq![row[0]] + flat(row.drop_first(), st, col + char_cols(row[0]))
    } else {
        Seq::empty()
    }
}

/// A trailing directive at the row's end column comes right after the row's last
/// character, provided the row does not end in zero-width characters.
proof fn lemma_flat_trailing(row: Seq<char>, s: Style, col: nat)
    requires
        s.pos == col + row_cols(row),
        row.len() > 0 ==> char_cols(row.last()) > 0,
    ensures
        flat(row, seq![s], col) == row + s.code,
    decreases row.len(),
{
    let one = seq![s];
    assert(one.drop_first() =~= Seq::<Style>::empty());
    if row.len() == 0 {
        assert(flat(row, Seq::<Style>::empty(), col) == Seq::<char>::empty());
        assert(flat(row, one, col) =~= row + s.code);
    } else {
        let t = row.drop_first();
        assert(row =~= seq![row[0]] + t);
        if t.len() > 0 {
            assert(t.last() == row.last());
            lemma_cols_split(t, t.len() - 1);
            assert(t.skip(t.len() - 1) =~= seq![t.last()]);
            assert(seq![t.last()].drop_first() =~= Seq::<char>::empty());
            assert(row_cols(seq![t.last()].drop_first()) == 0);
            assert(row_cols(seq![t.last()]) == char_cols(t.last()));
        } else {
            assert(row_cols(t) == 0);
        }
        assert(row_cols(row) == char_cols(row[0]) + row_cols(t));
        lemma_flat_trailing(t, s, col + char_cols(row[0]));
        assert(flat(row, one, col) =~= row + s.code);
    }
}

/// The directives that bracket a colored block `w` columns wide: a reset, the
/// foreground and background colors if any, all at column 0, and a reset at `w`.
pub open spec fn color_bracket(front: Option<Seq<char>>, back: Option<Seq<char>>, w: nat) -> Seq<Style> {
    let reset = Style { kind: EffectType::Reset, pos: 0, code: reset_code() };
    let fg = match front {
        Some(c) => seq![Style { kind: EffectType::FrontColor, pos: 0, code: c }],
        None => Seq::empty(),
    };
    let bg = match back {
        Some(c) => seq![Style { kind: EffectType::BackColor, pos: 0, code: c }],
        None => Seq::empty(),
    };
    seq![reset] + fg + bg + seq![Style { pos: w, ..reset }]
}

/// The sequence that resets every attribute.
pub open spec fn reset_code() -> Seq<char> {
    seq!['\x1b', '[', '0', 'm']
}

/// The sequence of an optional directive, or nothing.
pub open spec fn code_or_empty(c: Option<Seq<char>>) -> Seq<char> {
    match c {
        Some(c) => c,
        None => Seq::empty(),
    }
}

/// A color-bracketed block prints as: reset, the colors, its characters, reset.
pub proof fn lemma_flat_color_bracket(line: Seq<char>, front: Option<Seq<char>>, back: Option<Seq<char>>)
    requires
        line.len() > 0 ==> char_cols(line.last()) > 0,
    ensures
        flat(line, color_bracket(front, back, row_cols(line)), 0) == reset_code() + code_or_empty(front)
            + code_or_empty(back) + line + reset_code(),
{
    let w = row_cols(line);
    let v = color_bracket(front, back, w);
    let reset = Style { kind: EffectType::Reset, pos: 0, code: reset_code() };
    let last = Style { pos: w, ..reset };
    lemma_flat_trailing(line, last, 0);
    let fg = match front {
        Some(c) => seq![Style { kind: EffectType::FrontColor, pos: 0, code: c }],
        None => Seq::<Style>::empty(),
    };
    let bg = match back {
        Some(c) => seq![Style { kind: EffectType::BackColor, pos: 0, code: c }],
        None => Seq::<Style>::empty(),
    };
    let after_fg = bg + seq![last];
    let after_reset = fg + after_fg;
    assert(v =~= seq![reset] + after_reset);
    assert(v.drop_first() =~= after_reset);
    assert(flat(line, bg + seq![last], 0) == code_or_empty(back) + line + reset_code()) by {
        if back is Some {
            assert((bg + seq![last]).drop_first() =~= seq![last]);
        } else {
            assert(bg + seq![last] =~= seq![last]);
        }
    }
    assert(flat(line, after_reset, 0) == code_or_empty(front) + code_or_empty(back) + line + reset_code()) by {
        if front is Some {
            assert(after_reset.drop_first() =~= after_fg);
        } else {
            assert(after_reset =~= after_fg);
        }
    }
    assert(flat(line, v, 0) =~= reset_code() + code_or_empty(front) + code_or_empty(back) + line
        + reset_code());
}

/// The printable form of a row, `flat(row, styles(st), 0)`.
pub fn flatten_row(row: &Vec<char>, st: &Vec<Effect>) -> (out: Vec<char>)
    requires
        row_cols(row@) <= usize::MAX,
    ensures
        out@ == flat(row@, styles(st@), 0),
{
    let ghost sv = styles(st@);
    let mut out: Vec<char> = Vec::new();
    let mut i: usize = 0;
    let mut k: usize = 0;
    let mut col: usize = 0;
    assert(row@.skip(0) =~= row@);
    assert(sv.skip(0) =~= sv);
    assert(row@.take(0) =~= Seq::<char>::empty());
    while i < row.len() || k < st.len()
        invariant
            i <= row.len(),
            k <= st.len(),
            sv == styles(st@),
            sv.len() == st.len(),
            row_cols(row@) <= usize::MAX,
            col == row_cols(row@.take(i as int)),
            out@ + flat(row@.skip(i as int), sv.skip(k as int), col as nat) == flat(row@, sv, 0),
        decreases row.len() - i + st.len() - k,
    {
        let ghost rest = row@.skip(i as int);
        let ghost srest = sv.skip(k as int);
        if k < st.len() && st[k].pos < col {
            assert(sv[k as int] == st@[k as int]@);
            assert(srest.drop_first() =~= sv.skip(k + 1));
            k += 1;
        } else if k < st.len() && st[k].pos == col {
            assert(sv[k as int] == st@[k as int]@);
            assert(srest.drop_first() =~= sv.skip(k + 1));
            let code = st[k].code_chars();
            extend_chars(&mut out, &code);
            k += 1;
            assert(out@ + flat(row@.skip(i as int), sv.skip(k as int), col as nat) =~= flat(row@, sv, 0));
        } else if i < row.len() {
            let c = row[i];
            proof {
                assert(rest.drop_first() =~= row@.skip(i + 1));
                assert(row@.take(i + 1) =~= row@.take(i as int).push(c));
                lemma_cols_push(row@.take(i as int), c);
                lemma_cols_split(row@, i + 1);
            }
            out.push(c);
            col = col + char_width(c);
            i += 1;
            assert(out@ + flat(row@.skip(i as int), sv.skip(k as int), col as nat) =~= flat(row@, sv, 0));
        } else {
            assert(sv[k as int] == st@[k as int]@);
            assert(flat(rest, srest, col as nat) == Seq::<char>::empty());
            assert(sv.skip(st.len() as int) =~= Seq::<Style>::empty());
            k = st.len();
            assert(out@ + flat(row@.skip(i as int), sv.skip(k as int), col as nat) =~= flat(row@, sv, 0));
        }
    }
    assert(row@.skip(i as int) =~= Seq::<char>::empty());
    assert(sv.skip(k as int) =~= Seq::<Style>::empty());
    assert(out@ =~= out@ + flat(row@.skip(i as int), sv.skip(k as int), col as nat));
    out
}

} // verus!
