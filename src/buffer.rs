//! The character grid, its compositing operation, and rectangular areas.
use vstd::prelude::*;
use crate::border::BorderLine;
use crate::effect::{Color, Effect, EffectType, Style, attr_code, csi, styles};
use crate::flatten::{color_bracket, flat, flatten_row, reset_code};
use crate::row::{
    lemma_splice_row_cols, lemma_splice_row_keeps_outside, lemma_splice_row_own, splice_chars, splice_row,
};
use crate::styles::{
    lemma_splice_styles_ordered, lemma_splice_styles_own, ordered_within, splice_effects, splice_styles,
};
use crate::text::{chars_of, string_of};
use crate::width::{char_cols, char_width, lemma_cols_push, lemma_cols_split, row_cols, space_is_narrow, spaces};

verus! {

/// The characters of each string.
pub open spec fn texts(v: Seq<String>) -> Seq<Seq<char>> {
    v.map_values(|s: String| s@)
}

/// The styles of each row of effects.
pub open spec fn style_rows(v: Seq<Vec<Effect>>) -> Seq<Seq<Style>> {
    v.map_values(|r: Vec<Effect>| styles(r@))
}

/// What a grid holds, mathematically: the characters and the directives of each
/// row, and the width of every row.
pub struct Grid {
    pub rows: Seq<Seq<char>>,
    pub styles: Seq<Seq<Style>>,
    pub cols: nat,
}

/// The grid `g` after the block `lines` with directives `st` is drawn into `r`, or
/// `g` itself when the block does not fit.
pub open spec fn composite(g: Grid, lines: Seq<Seq<char>>, st: Seq<Seq<Style>>, r: Rect) -> Grid {
    if r.x + r.width <= g.cols && r.y + r.height <= g.rows.len() && Buffer::block_fits(lines, st, r) {
        Grid {
            rows: Seq::new(
                g.rows.len(),
                |y: int|
                    if r.y <= y < r.y + r.height {
                        splice_row(g.rows[y], r.x as nat, r.width as nat, g.cols, lines[y - r.y])
                    } else {
                        g.rows[y]
                    },
            ),
            styles: Seq::new(
                g.styles.len(),
                |y: int|
                    if r.y <= y < r.y + r.height {
                        splice_styles(g.styles[y], r.x as nat, r.width as nat, st[y - r.y])
                    } else {
                        g.styles[y]
                    },
            ),
            cols: g.cols,
        }
    } else {
        g
    }
}

/// `inner` lies within `outer`.
pub open spec fn within(inner: Rect, outer: Rect) -> bool {
    &&& outer.x <= inner.x
    &&& inner.x + inner.width <= outer.x + outer.width
    &&& outer.y <= inner.y
    &&& inner.y + inner.height <= outer.y + outer.height
}

/// `r` lies inside the grid `g`.
pub open spec fn fits_grid(g: Grid, r: Rect) -> bool {
    r.x + r.width <= g.cols && r.y + r.height <= g.rows.len()
}

/// `h` differs from `g` only inside `r`: it has the same size; rows outside `r`
/// keep their characters and directives; and in every row, the characters that end
/// at or before column `r.x`, and those that start at or after `r.x + r.width`, stay.
pub open spec fn same_outside(g: Grid, h: Grid, r: Rect) -> bool {
    &&& h.cols == g.cols
    &&& h.rows.len() == g.rows.len()
    &&& h.styles.len() == g.styles.len()
    &&& forall|y: int|
        0 <= y < g.rows.len() && !(r.y <= y < r.y + r.height) ==> #[trigger] h.rows[y] == g.rows[y]
    &&& forall|y: int|
        0 <= y < g.styles.len() && !(r.y <= y < r.y + r.height) ==> #[trigger] h.styles[y] == g.styles[y]
    &&& forall|y: int, i: int|
        0 <= y < g.rows.len() && 0 <= i <= g.rows[y].len() && row_cols(#[trigger] g.rows[y].take(i)) <= r.x
            ==> i <= h.rows[y].len() && h.rows[y].take(i) == g.rows[y].take(i)
    &&& forall|y: int, j: int|
        0 <= y < g.rows.len() && 0 <= j <= g.rows[y].len() && row_cols(#[trigger] g.rows[y].skip(j)) + r.x
            + r.width <= g.cols ==> {
            let n = g.rows[y].len() - j;
            n <= h.rows[y].len() && h.rows[y].skip(h.rows[y].len() - n) == g.rows[y].skip(j)
        }
}

pub proof fn lemma_same_outside_refl(g: Grid, r: Rect)
    ensures
        same_outside(g, g, r),
{
    assert forall|y: int, j: int|
        0 <= y < g.rows.len() && 0 <= j <= g.rows[y].len() && row_cols(#[trigger] g.rows[y].skip(j)) + r.x
            + r.width <= g.cols implies g.rows[y].skip(g.rows[y].len() - (g.rows[y].len() - j)) == g.rows[y].skip(j) by {
        assert(g.rows[y].len() - (g.rows[y].len() - j) == j);
    }
}

/// Changes confined to `r2` within `r`, after changes confined to `r`, are confined to `r`.
pub proof fn lemma_same_outside_trans(g0: Grid, g1: Grid, g2: Grid, r: Rect, r2: Rect)
    requires
        same_outside(g0, g1, r),
        same_outside(g1, g2, r2),
        within(r2, r),
    ensures
        same_outside(g0, g2, r),
{
    assert forall|y: int, i: int|
        0 <= y < g0.rows.len() && 0 <= i <= g0.rows[y].len() && row_cols(#[trigger] g0.rows[y].take(i)) <= r.x
        implies i <= g2.rows[y].len() && g2.rows[y].take(i) == g0.rows[y].take(i) by {
        assert(g1.rows[y].take(i) == g0.rows[y].take(i));
        assert(row_cols(g1.rows[y].take(i)) <= r2.x);
    }
    assert forall|y: int, j: int|
        0 <= y < g0.rows.len() && 0 <= j <= g0.rows[y].len() && row_cols(#[trigger] g0.rows[y].skip(j)) + r.x
            + r.width <= g0.cols implies ({
        let n = g0.rows[y].len() - j;
        n <= g2.rows[y].len() && g2.rows[y].skip(g2.rows[y].len() - n) == g0.rows[y].skip(j)
    }) by {
        let n = g0.rows[y].len() - j;
        let j1 = g1.rows[y].len() - n;
        assert(g1.rows[y].skip(j1) == g0.rows[y].skip(j));
        assert(row_cols(g1.rows[y].skip(j1)) + r2.x + r2.width <= g1.cols);
        assert(g1.rows[y].len() - j1 == n);
    }
}

/// Compositing into `r` changes the grid only inside `r`.
pub proof fn lemma_composite_same_outside(g: Grid, lines: Seq<Seq<char>>, st: Seq<Seq<Style>>, r: Rect)
    ensures
        same_outside(g, composite(g, lines, st, r), r),
{
    let c = composite(g, lines, st, r);
    if fits_grid(g, r) && Buffer::block_fits(lines, st, r) {
        assert forall|y: int, i: int|
            0 <= y < g.rows.len() && 0 <= i <= g.rows[y].len() && row_cols(#[trigger] g.rows[y].take(i)) <= r.x
            implies i <= c.rows[y].len() && c.rows[y].take(i) == g.rows[y].take(i) by {
            if r.y <= y < r.y + r.height {
                lemma_splice_row_keeps_outside(g.rows[y], r.x as nat, r.width as nat, g.cols, lines[y - r.y]);
            }
        }
        assert forall|y: int, j: int|
            0 <= y < g.rows.len() && 0 <= j <= g.rows[y].len() && row_cols(#[trigger] g.rows[y].skip(j)) + r.x
                + r.width <= g.cols implies ({
            let n = g.rows[y].len() - j;
            n <= c.rows[y].len() && c.rows[y].skip(c.rows[y].len() - n) == g.rows[y].skip(j)
        }) by {
            if r.y <= y < r.y + r.height {
                lemma_splice_row_keeps_outside(g.rows[y], r.x as nat, r.width as nat, g.cols, lines[y - r.y]);
            } else {
                assert(g.rows[y].len() - (g.rows[y].len() - j) == j);
            }
        }
    } else {
        lemma_same_outside_refl(g, r);
    }
}

/// Drawing a grid's own rows and directives over its whole area changes nothing,
/// provided no row starts or ends with a zero-width character and every row's
/// directives, if any, end with a reset.
pub proof fn lemma_composite_own_rows(g: Grid)
    requires
        g.styles.len() == g.rows.len() <= usize::MAX,
        g.cols <= usize::MAX,
        forall|y: int| 0 <= y < g.rows.len() ==> #[trigger] row_cols(g.rows[y]) == g.cols,
        forall|y: int| 0 <= y < g.rows.len() ==> ordered_within(#[trigger] g.styles[y], g.cols),
        forall|y: int|
            0 <= y < g.rows.len() && #[trigger] g.rows[y].len() > 0 ==> char_cols(g.rows[y][0]) > 0 && char_cols(
                g.rows[y].last(),
            ) > 0,
        forall|y: int|
            0 <= y < g.rows.len() && #[trigger] g.styles[y].len() > 0 ==> g.styles[y].last().kind == EffectType::Reset,
    ensures
        composite(g, g.rows, g.styles, Rect { x: 0, y: 0, width: g.cols as usize, height: g.rows.len() as usize })
            == g,
{
    let r = Rect { x: 0, y: 0, width: g.cols as usize, height: g.rows.len() as usize };
    assert(Buffer::block_fits(g.rows, g.styles, r));
    let c = composite(g, g.rows, g.styles, r);
    assert forall|y: int| 0 <= y < g.rows.len() implies c.rows[y] == g.rows[y] by {
        lemma_splice_row_own(g.rows[y], g.cols);
    }
    assert forall|y: int| 0 <= y < g.rows.len() implies c.styles[y] == g.styles[y] by {
        lemma_splice_styles_own(g.styles[y], g.cols);
    }
    assert(c.rows =~= g.rows);
    assert(c.styles =~= g.styles);
}

/// A `width` x `height` grid of characters, with the style directives of each row.
pub struct Buffer {
    width: usize,
    height: usize,
    text: Vec<Vec<char>>,
    effects: Vec<Vec<Effect>>,
}

/// An axis-aligned rectangle of grid cells.
#[derive(Clone, Copy, PartialEq, Eq, Structural, Debug)]
pub struct Rect {
    pub x: usize,
    pub y: usize,
    pub width: usize,
    pub height: usize,
}

impl Buffer {
    pub closed spec fn cols(&self) -> nat {
        self.width as nat
    }

    pub closed spec fn lines(&self) -> nat {
        self.height as nat
    }

    /// The characters of each row.
    pub closed spec fn rows(&self) -> Seq<Seq<char>> {
        self.text@.map_values(|r: Vec<char>| r@)
    }

    /// The directives of each row.
    pub closed spec fn row_styles(&self) -> Seq<Seq<Style>> {
        style_rows(self.effects@)
    }

    pub open spec fn grid(&self) -> Grid {
        Grid { rows: self.rows(), styles: self.row_styles(), cols: self.cols() }
    }

    /// Every row is exactly `cols()` columns wide and its directives are ordered
    /// and lie within `[0, cols()]`.
    pub open spec fn wf(&self) -> bool {
        &&& self.cols() <= usize::MAX
        &&& self.lines() <= usize::MAX
        &&& self.rows().len() == self.lines()
        &&& self.row_styles().len() == self.lines()
        &&& forall|y: int| 0 <= y < self.lines() ==> #[trigger] row_cols(self.rows()[y]) == self.cols()
        &&& forall|y: int| 0 <= y < self.lines() ==> ordered_within(#[trigger] self.row_styles()[y], self.cols())
    }

    /// `r` lies inside the grid.
    pub open spec fn fits(&self, r: Rect) -> bool {
        r.x + r.width <= self.cols() && r.y + r.height <= self.lines()
    }

    /// A block of `lines` with directives `st` can be drawn into `r`: one line and one
    /// list of directives per row of `r`, each line exactly `r.width` columns wide,
    /// each list ordered within `[0, r.width]`.
    pub open spec fn block_fits(lines: Seq<Seq<char>>, st: Seq<Seq<Style>>, r: Rect) -> bool {
        &&& lines.len() == r.height
        &&& st.len() == r.height
        &&& forall|i: int| 0 <= i < r.height ==> #[trigger] row_cols(lines[i]) == r.width
        &&& forall|i: int| 0 <= i < r.height ==> ordered_within(#[trigger] st[i], r.width as nat)
    }

    /// A blank grid: every row is spaces, with no directives.
    pub fn new(width: usize, height: usize) -> (b: Self)
        ensures
            b.wf(),
            b.cols() == width,
            b.lines() == height,
            forall|y: int| 0 <= y < height ==> #[trigger] b.rows()[y] == spaces(width as nat),
            forall|y: int| 0 <= y < height ==> #[trigger] b.row_styles()[y] == Seq::<Style>::empty(),
    {
        space_is_narrow();
        let mut blank: Vec<char> = Vec::new();
        let mut i: usize = 0;
        while i < width
            invariant
                i <= width,
                blank@ == spaces(i as nat),
                row_cols(blank@) == i,
                char_cols(' ') == 1,
            decreases width - i,
        {
            proof {
                lemma_cols_push(blank@, ' ');
            }
            blank.push(' ');
            i += 1;
            assert(blank@ =~= spaces(i as nat));
        }
        let mut text: Vec<Vec<char>> = Vec::new();
        let mut effects: Vec<Vec<Effect>> = Vec::new();
        let mut y: usize = 0;
        while y < height
            invariant
                y <= height,
                text@.len() == y,
                effects@.len() == y,
                blank@ == spaces(width as nat),
                row_cols(blank@) == width,
                forall|j: int| 0 <= j < y ==> #[trigger] text@[j]@ == spaces(width as nat),
                forall|j: int| 0 <= j < y ==> #[trigger] effects@[j]@ == Seq::<Effect>::empty(),
            decreases height - y,
        {
            text.push(blank.clone());
            effects.push(Vec::new());
            y += 1;
        }
        let b = Buffer { width, height, text, effects };
        assert forall|j: int| 0 <= j < height implies #[trigger] b.row_styles()[j] == Seq::<Style>::empty() by {
            assert(styles(effects@[j]@) =~= Seq::<Style>::empty());
        }
        b
    }

    /// Draws the block `buf` with directives `effects` into the area `rect`: each row
    /// of the area is spliced (see `splice_row` and `splice_styles`) and every other
    /// row is left alone. A block that does not fit (see `fits` and `block_fits`) is
    /// refused, with `false`, and the grid is unchanged.
    pub fn push_rect_buffer(&mut self, buf: Vec<String>, effects: Vec<Vec<Effect>>, rect: Rect) -> (ok: bool)
        requires
            old(self).wf(),
        ensures
            final(self).wf(),
            final(self).cols() == old(self).cols(),
            final(self).lines() == old(self).lines(),
            final(self).grid() == composite(old(self).grid(), texts(buf@), style_rows(effects@), rect),
            ok == (old(self).fits(rect) && Buffer::block_fits(texts(buf@), style_rows(effects@), rect)),
            ok ==> forall|y: int|
                0 <= y < old(self).lines() ==> #[trigger] final(self).rows()[y] == if rect.y <= y < rect.y
                    + rect.height {
                    splice_row(
                        old(self).rows()[y],
                        rect.x as nat,
                        rect.width as nat,
                        old(self).cols(),
                        texts(buf@)[y - rect.y],
                    )
                } else {
                    old(self).rows()[y]
                },
            ok ==> forall|y: int|
                0 <= y < old(self).lines() ==> #[trigger] final(self).row_styles()[y] == if rect.y <= y
                    < rect.y + rect.height {
                    splice_styles(
                        old(self).row_styles()[y],
                        rect.x as nat,
                        rect.width as nat,
                        style_rows(effects@)[y - rect.y],
                    )
                } else {
                    old(self).row_styles()[y]
                },
            !ok ==> final(self).rows() == old(self).rows() && final(self).row_styles() == old(
                self,
            ).row_styles(),
    {
        let ghost lines = texts(buf@);
        let ghost sts = style_rows(effects@);
        if !(rect.width <= self.width && rect.x <= self.width - rect.width && rect.height <= self.height
            && rect.y <= self.height - rect.height) {
            return false;
        }
        if buf.len() != rect.height || effects.len() != rect.height {
            assert(!Buffer::block_fits(lines, sts, rect));
            return false;
        }
        space_is_narrow();
        let src = match block_chars(&buf, &effects, rect) {
            Some(src) => src,
            None => {
                return false;
            },
        };
        let ghost before = *self;
        let mut y: usize = 0;
        while y < rect.height
            invariant
                y <= rect.height,
                rect.x + rect.width <= self.width == before.width,
                rect.y + rect.height <= self.height == before.height,
                before.wf(),
                char_cols(' ') == 1,
                src@.len() == rect.height == effects@.len(),
                lines == texts(buf@),
                sts == style_rows(effects@),
                forall|j: int| 0 <= j < rect.height ==> #[trigger] src@[j]@ == lines[j],
                Buffer::block_fits(lines, sts, rect),
                self.text@.len() == self.height,
                self.effects@.len() == self.height,
                forall|r: int|
                    0 <= r < self.height ==> #[trigger] self.rows()[r] == if rect.y <= r < rect.y + y {
                        splice_row(before.rows()[r], rect.x as nat, rect.width as nat, before.cols(), lines[r - rect.y])
                    } else {
                        before.rows()[r]
                    },
                forall|r: int|
                    0 <= r < self.height ==> #[trigger] self.row_styles()[r] == if rect.y <= r < rect.y + y {
                        splice_styles(before.row_styles()[r], rect.x as nat, rect.width as nat, sts[r - rect.y])
                    } else {
                        before.row_styles()[r]
                    },
            decreases rect.height - y,
        {
            let r = rect.y + y;
            assert(self.rows()[r as int] == self.text@[r as int]@);
            assert(self.row_styles()[r as int] == styles(self.effects@[r as int]@));
            assert(sts[y as int] == styles(effects@[y as int]@));
            let row = splice_chars(&self.text[r], rect.x, rect.width, self.width, &src[y]);
            let st = splice_effects(&self.effects[r], rect.x, rect.width, &effects[y]);
            let ghost prev = *self;
            self.text.set(r, row);
            self.effects.set(r, st);
            y += 1;
            assert forall|q: int| 0 <= q < self.height implies #[trigger] self.rows()[q] == if rect.y <= q < rect.y
                + y {
                splice_row(before.rows()[q], rect.x as nat, rect.width as nat, before.cols(), lines[q - rect.y])
            } else {
                before.rows()[q]
            } by {
                assert(self.rows()[q] == self.text@[q]@);
                assert(prev.rows()[q] == prev.text@[q]@);
            }
            assert forall|q: int| 0 <= q < self.height implies #[trigger] self.row_styles()[q] == if rect.y <= q
                < rect.y + y {
                splice_styles(before.row_styles()[q], rect.x as nat, rect.width as nat, sts[q - rect.y])
            } else {
                before.row_styles()[q]
            } by {
                assert(self.row_styles()[q] == styles(self.effects@[q]@));
                assert(prev.row_styles()[q] == styles(prev.effects@[q]@));
            }
        }
        assert(self.rows().len() == self.text@.len());
        assert(self.row_styles().len() == self.effects@.len());
        assert forall|q: int| 0 <= q < self.height implies #[trigger] row_cols(self.rows()[q]) == self.cols() by {
            if rect.y <= q < rect.y + rect.height {
                lemma_splice_row_cols(before.rows()[q], rect.x as nat, rect.width as nat, before.cols(), lines[q - rect.y]);
            } else {
                assert(row_cols(before.rows()[q]) == before.cols());
            }
        }
        assert forall|q: int| 0 <= q < self.height implies ordered_within(#[trigger] self.row_styles()[q], self.cols()) by {
            if rect.y <= q < rect.y + rect.height {
                lemma_splice_styles_ordered(before.row_styles()[q], rect.x as nat, rect.width as nat, before.cols(), sts[q - rect.y]);
            } else {
                assert(ordered_within(before.row_styles()[q], before.cols()));
            }
        }
        assert(self.grid().rows =~= composite(before.grid(), lines, sts, rect).rows);
        assert(self.grid().styles =~= composite(before.grid(), lines, sts, rect).styles);
        true
    }

    /// The printable lines of the grid: each row's characters interleaved with its
    /// directives' escape sequences (see `flat`).
    pub fn get_buffer(&self) -> (out: Vec<String>)
        requires
            self.wf(),
        ensures
            out@.len() == self.lines(),
            forall|y: int| 0 <= y < self.lines() ==> #[trigger] out@[y]@ == flat(self.rows()[y], self.row_styles()[y], 0),
    {
        let mut out: Vec<String> = Vec::new();
        let mut y: usize = 0;
        while y < self.text.len()
            invariant
                self.wf(),
                y <= self.text@.len() == self.height,
                out@.len() == y,
                forall|j: int| 0 <= j < y ==> #[trigger] out@[j]@ == flat(self.rows()[j], self.row_styles()[j], 0),
            decreases self.text@.len() - y,
        {
            assert(self.rows()[y as int] == self.text@[y as int]@);
            assert(self.row_styles()[y as int] == styles(self.effects@[y as int]@));
            let line = flatten_row(&self.text[y], &self.effects[y]);
            out.push(string_of(line.as_slice()));
            y += 1;
        }
        out
    }
}

impl Buffer {
    /// The directives of row `y`.
    pub fn row_effects(&self, y: usize) -> (out: Vec<Effect>)
        requires
            self.wf(),
            y < self.lines(),
        ensures
            styles(out@) == self.row_styles()[y as int],
    {
        copy_effects(&self.effects[y])
    }

    /// The plain characters of each row, without directives.
    pub fn text_lines(&self) -> (out: Vec<String>)
        requires
            self.wf(),
        ensures
            texts(out@) == self.rows(),
    {
        let mut out: Vec<String> = Vec::new();
        let mut y: usize = 0;
        while y < self.text.len()
            invariant
                self.wf(),
                y <= self.text@.len() == self.height,
                out@.len() == y,
                forall|j: int| 0 <= j < y ==> #[trigger] out@[j]@ == self.rows()[j],
            decreases self.text@.len() - y,
        {
            assert(self.rows()[y as int] == self.text@[y as int]@);
            out.push(string_of(self.text[y].as_slice()));
            y += 1;
        }
        assert(texts(out@) =~= self.rows());
        out
    }
}

/// The characters of each line of the block, if the block can be drawn into `rect`.
fn block_chars(buf: &Vec<String>, effects: &Vec<Vec<Effect>>, rect: Rect) -> (r: Option<Vec<Vec<char>>>)
    requires
        buf@.len() == rect.height,
        effects@.len() == rect.height,
    ensures
        r is Some <==> Buffer::block_fits(texts(buf@), style_rows(effects@), rect),
        r matches Some(src) ==> src@.len() == rect.height && forall|j: int|
            0 <= j < rect.height ==> #[trigger] src@[j]@ == texts(buf@)[j],
{
    let ghost lines = texts(buf@);
    let ghost sts = style_rows(effects@);
    let mut src: Vec<Vec<char>> = Vec::new();
    let mut i: usize = 0;
    while i < rect.height
        invariant
            i <= rect.height == buf@.len() == effects@.len(),
            lines == texts(buf@),
            sts == style_rows(effects@),
            src@.len() == i,
            forall|j: int| 0 <= j < i ==> #[trigger] src@[j]@ == lines[j],
            forall|j: int| 0 <= j < i ==> #[trigger] row_cols(lines[j]) == rect.width,
            forall|j: int| 0 <= j < i ==> ordered_within(#[trigger] sts[j], rect.width as nat),
        decreases rect.height - i,
    {
        let cs = chars_of(buf[i].as_str());
        if !has_width(&cs, rect.width) {
            assert(!Buffer::block_fits(lines, sts, rect)) by {
                assert(row_cols(lines[i as int]) != rect.width);
            }
            return None;
        }
        if !effects_ordered(&effects[i], rect.width) {
            assert(!Buffer::block_fits(lines, sts, rect)) by {
                assert(sts[i as int] == styles(effects@[i as int]@));
                assert(!ordered_within(sts[i as int], rect.width as nat));
            }
            return None;
        }
        src.push(cs);
        i += 1;
    }
    Some(src)
}

/// Whether the row is exactly `w` columns wide.
fn has_width(cs: &Vec<char>, w: usize) -> (r: bool)
    ensures
        r == (row_cols(cs@) == w),
{
    let mut acc: usize = 0;
    let mut i: usize = 0;
    assert(cs@.take(0) =~= Seq::<char>::empty());
    while i < cs.len()
        invariant
            i <= cs.len(),
            acc <= w,
            acc == row_cols(cs@.take(i as int)),
        decreases cs.len() - i,
    {
        let c = char_width(cs[i]);
        proof {
            assert(cs@.take(i + 1) =~= cs@.take(i as int).push(cs@[i as int]));
            lemma_cols_push(cs@.take(i as int), cs@[i as int]);
        }
        if c > w - acc {
            proof {
                lemma_cols_split(cs@, i + 1);
            }
            return false;
        }
        acc = acc + c;
        i += 1;
    }
    assert(cs@.take(i as int) =~= cs@);
    acc == w
}

/// Whether the directives are ordered and lie within `[0, w]`.
fn effects_ordered(v: &Vec<Effect>, w: usize) -> (r: bool)
    ensures
        r == ordered_within(styles(v@), w as nat),
{
    let ghost sv = styles(v@);
    let mut i: usize = 0;
    while i < v.len()
        invariant
            i <= v.len(),
            sv == styles(v@),
            sv.len() == v.len(),
            ordered_within(sv.take(i as int), w as nat),
        decreases v.len() - i,
    {
        assert(sv[i as int] == v@[i as int]@);
        if v[i].pos > w {
            assert(sv[i as int].pos > w);
            return false;
        }
        if i > 0 && v[i - 1].pos > v[i].pos {
            assert(sv[i - 1] == v@[i - 1]@);
            assert(!(sv[i - 1].pos <= sv[i as int].pos));
            return false;
        }
        let ghost t = sv.take(i + 1);
        assert forall|a: int, b: int| 0 <= a <= b < t.len() implies #[trigger] t[a].pos <= #[trigger] t[b].pos by {
            if b == i && a < i {
                assert(sv.take(i as int)[a].pos <= sv.take(i as int)[i - 1].pos);
            }
        }
        i += 1;
    }
    assert(sv.take(i as int) =~= sv);
    true
}

impl Rect {
    pub fn new(x: usize, y: usize, width: usize, height: usize) -> (r: Self)
        ensures
            r == (Rect { x, y, width, height }),
    {
        Rect { x, y, width, height }
    }

    /// Room for a border: at least three cells each way.
    pub open spec fn has_border_room(&self) -> bool {
        self.width >= 3 && self.height >= 3
    }

    pub fn can_draw_border(&self) -> (r: bool)
        ensures
            r == self.has_border_room(),
    {
        self.width >= 3 && self.height >= 3
    }

    /// The area left inside a border, if one is drawn.
    pub open spec fn inset(&self, line: Option<BorderLine>) -> Rect {
        if self.has_border_room() && line is Some {
            Rect { x: (self.x + 1) as usize, y: (self.y + 1) as usize, width: (self.width - 2) as usize, height: (self.height - 2) as usize }
        } else {
            *self
        }
    }

    pub fn make_bordered_rect(&self, line: Option<BorderLine>) -> (r: Rect)
        requires
            self.has_border_room() && line is Some ==> self.x + 1 <= usize::MAX && self.y + 1 <= usize::MAX,
        ensures
            r == self.inset(line),
    {
        if self.can_draw_border() && line.is_some() {
            Rect { x: self.x + 1, y: self.y + 1, width: self.width - 2, height: self.height - 2 }
        } else {
            *self
        }
    }

    /// The lines that draw the area's border with `line`, or blank lines when there
    /// is no border or no room for one.
    pub open spec fn border_rows(&self, line: Option<BorderLine>) -> Seq<Seq<char>> {
        let w = self.width as nat;
        let h = self.height as int;
        if line is None || !self.has_border_room() {
            Seq::new(h as nat, |i: int| spaces(w))
        } else {
            let b = line->0;
            Seq::new(
                h as nat,
                |i: int|
                    if i == 0 {
                        edge_row(b.lt, b.t, b.rt, w)
                    } else if i == h - 1 {
                        edge_row(b.lb, b.b, b.rb, w)
                    } else {
                        edge_row(b.l, ' ', b.r, w)
                    },
            )
        }
    }

    pub fn make_border_buf(&self, line: Option<BorderLine>) -> (out: Vec<String>)
        ensures
            texts(out@) == self.border_rows(line),
    {
        let h = self.height;
        let w = self.width;
        let mut out: Vec<String> = Vec::new();
        let mut y: usize = 0;
        let ghost want = self.border_rows(line);
        while y < h
            invariant
                y <= h == self.height,
                w == self.width,
                want == self.border_rows(line),
                out@.len() == y,
                forall|j: int| 0 <= j < y ==> #[trigger] out@[j]@ == want[j],
            decreases h - y,
        {
            let row = match line {
                Some(b) if self.can_draw_border() => {
                    if y == 0 {
                        edge_chars(b.lt, b.t, b.rt, w)
                    } else if y == h - 1 {
                        edge_chars(b.lb, b.b, b.rb, w)
                    } else {
                        edge_chars(b.l, ' ', b.r, w)
                    }
                },
                _ => edge_chars(' ', ' ', ' ', w),
            };
            proof {
                if line is None || !self.has_border_room() {
                    assert(edge_row(' ', ' ', ' ', w as nat) =~= spaces(w as nat));
                }
            }
            out.push(string_of(row.as_slice()));
            y += 1;
        }
        assert(texts(out@) =~= want);
        out
    }

    /// The directives that color every row of the area (see `color_bracket`).
    pub fn make_color_eff_vec(&self, front: Option<Color>, back: Option<Color>) -> (out: Vec<Vec<Effect>>)
        ensures
            out@.len() == self.height,
            forall|y: int| 0 <= y < self.height ==> #[trigger] style_rows(out@)[y] == color_bracket(
                front_seq(front),
                back_seq(back),
                self.width as nat,
            ),
    {
        let ghost want = color_bracket(front_seq(front), back_seq(back), self.width as nat);
        let w = self.width;
        let mut line: Vec<Effect> = Vec::new();
        let first = Effect::reset(0);
        line.push(first);
        let ghost lead = seq![first@];
        assert(styles(line@) =~= lead);
        let ghost fg: Seq<Style> = Seq::empty();
        if let Some(f) = front {
            let e = Effect::front_color(f, 0);
            line.push(e);
            proof {
                fg = seq![e@];
            }
        }
        assert(styles(line@) =~= lead + fg);
        let ghost bg: Seq<Style> = Seq::empty();
        if let Some(b) = back {
            let e = Effect::back_color(b, 0);
            line.push(e);
            proof {
                bg = seq![e@];
            }
        }
        assert(styles(line@) =~= lead + fg + bg);
        let last = Effect::reset(w);
        line.push(last);
        assert(styles(line@) =~= lead + fg + bg + seq![last@]);
        assert(attr_code(0) =~= reset_code());
        assert(styles(line@) =~= want);
        let mut out: Vec<Vec<Effect>> = Vec::new();
        let mut y: usize = 0;
        while y < self.height
            invariant
                y <= self.height,
                out@.len() == y,
                styles(line@) == want,
                forall|j: int| 0 <= j < y ==> #[trigger] styles(out@[j]@) == want,
            decreases self.height - y,
        {
            out.push(copy_effects(&line));
            y += 1;
        }
        out
    }
}

/// The escape sequence that selects an optional foreground color.
pub open spec fn front_seq(c: Option<Color>) -> Option<Seq<char>> {
    match c {
        Some(c) => Some(csi(seq!['3', '8', ';'] + c.code@)),
        None => None,
    }
}

/// The escape sequence that selects an optional background color.
pub open spec fn back_seq(c: Option<Color>) -> Option<Seq<char>> {
    match c {
        Some(c) => Some(csi(seq!['4', '8', ';'] + c.code@)),
        None => None,
    }
}

/// A border line: `a`, then `w - 2` copies of `m`, then `z`.
pub open spec fn edge_row(a: char, m: char, z: char, w: nat) -> Seq<char> {
    if w >= 2 {
        seq![a] + Seq::new((w - 2) as nat, |i: int| m) + seq![z]
    } else {
        Seq::new(w, |i: int| a)
    }
}

fn edge_chars(a: char, m: char, z: char, w: usize) -> (out: Vec<char>)
    ensures
        out@ == edge_row(a, m, z, w as nat),
{
    let mut out: Vec<char> = Vec::new();
    if w < 2 {
        let mut i: usize = 0;
        while i < w
            invariant
                i <= w,
                out@ == Seq::new(i as nat, |k: int| a),
            decreases w - i,
        {
            out.push(a);
            i += 1;
            assert(out@ =~= Seq::new(i as nat, |k: int| a));
        }
        return out;
    }
    out.push(a);
    let mut i: usize = 0;
    while i < w - 2
        invariant
            i <= w - 2,
            out@ == seq![a] + Seq::new(i as nat, |k: int| m),
        decreases w - 2 - i,
    {
        out.push(m);
        i += 1;
        assert(out@ =~= seq![a] + Seq::new(i as nat, |k: int| m));
    }
    out.push(z);
    out
}

fn copy_effects(v: &Vec<Effect>) -> (out: Vec<Effect>)
    ensures
        styles(out@) == styles(v@),
{
    let mut out: Vec<Effect> = Vec::new();
    let mut i: usize = 0;
    while i < v.len()
        invariant
            i <= v.len(),
            styles(out@) == styles(v@).take(i as int),
        decreases v.len() - i,
    {
        let ghost prev = out@;
        out.push(v[i].at(v[i].pos));
        assert(styles(out@) =~= styles(v@).take(i + 1)) by {
            assert(styles(out@) =~= styles(prev).push(out@[i as int]@));
        }
        i += 1;
    }
    assert(styles(v@).take(i as int) =~= styles(v@));
    out
}

} // verus!
