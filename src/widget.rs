//! Containers that split their area among child widgets and draw into a grid.
use vstd::prelude::*;
use crate::border::BorderLine;
use crate::buffer::{
    Buffer, Grid, Rect, back_seq, composite, fits_grid, front_seq, lemma_composite_same_outside,
    lemma_same_outside_refl, lemma_same_outside_trans, same_outside, style_rows, texts, within,
};
use crate::effect::Color;
use crate::flatten::color_bracket;
use crate::layout::{Alignment, Constraint, lemma_slot_within, slot, slot_of, split_extent};
use crate::width::{text_width, unicode_str_width_of};

verus! {

broadcast use vstd::std_specs::vec::axiom_vec_index_decreases, vstd::std_specs::vec::axiom_vec_decreases_to_view;

/// A node of a widget tree.
pub enum Widget {
    Horizontal(Horizontal),
    Vertical(Vertical),
}

/// What a container holds: its own constraint and alignment, its children in
/// order, and how it decorates its area.
struct Frame {
    constraint: Constraint,
    alignment: Alignment,
    widgets: Vec<Widget>,
    border: Option<BorderLine>,
    front_color: Option<Color>,
    back_color: Option<Color>,
}

/// A container that splits its width among its children.
pub struct Horizontal {
    frame: Frame,
}

/// A container that splits its height among its children.
pub struct Vertical {
    frame: Frame,
}

/// The constraints of a row of widgets.
pub open spec fn constraints_of(ws: Seq<Widget>) -> Seq<Constraint> {
    ws.map_values(|w: Widget| w.constraint())
}

/// The alignments of a row of widgets.
pub open spec fn alignments_of(ws: Seq<Widget>) -> Seq<Alignment> {
    ws.map_values(|w: Widget| w.alignment())
}

/// The extent of `area` along the split axis: its width when split across,
/// its height otherwise.
pub open spec fn extent_of(area: Rect, across: bool) -> nat {
    if across {
        area.width as nat
    } else {
        area.height as nat
    }
}

/// The part of `area` at (offset, length) `s` along the split axis.
pub open spec fn part(area: Rect, across: bool, s: (int, int)) -> Rect {
    if across {
        Rect { x: (area.x + s.0) as usize, y: area.y, width: s.1 as usize, height: area.height }
    } else {
        Rect { x: area.x, y: (area.y + s.0) as usize, width: area.width, height: s.1 as usize }
    }
}

/// Where the `i`th of `ws` goes within `area`, or `None` if it is dropped.
pub open spec fn placed(ws: Seq<Widget>, across: bool, area: Rect, i: int) -> Option<Rect> {
    match slot(constraints_of(ws), alignments_of(ws), extent_of(area, across), i) {
        Some(s) => Some(part(area, across, s)),
        None => None,
    }
}

/// The grid after a container with `border` and `colors` (foreground, background)
/// draws its decoration into `r`: its border (or blank fill) and its color bracket.
pub open spec fn decorated(border: Option<BorderLine>, colors: (Option<Color>, Option<Color>), g: Grid, r: Rect) -> Grid {
    composite(
        g,
        r.border_rows(border),
        Seq::new(r.height as nat, |y: int| color_bracket(front_seq(colors.0), back_seq(colors.1), r.width as nat)),
        r,
    )
}

/// The grid after `w` renders into `r` of `g`.
pub open spec fn drawn(w: Widget, g: Grid, r: Rect) -> Grid
    decreases w, 0int,
{
    match w {
        Widget::Horizontal(h) => container_drawn(h.children(), h.border(), h.colors(), true, g, r),
        Widget::Vertical(v) => container_drawn(v.children(), v.border(), v.colors(), false, g, r),
    }
}

/// The grid after a container with children `ws` renders into `r`, splitting across
/// (by width) or down (by height): its decoration, then its start-aligned children
/// in order, then its end-aligned children in reverse order, each into its part of
/// the area inside the border.
pub open spec fn container_drawn(
    ws: Seq<Widget>,
    border: Option<BorderLine>,
    colors: (Option<Color>, Option<Color>),
    across: bool,
    g: Grid,
    r: Rect,
) -> Grid
    decreases ws, ws.len() + 1,
{
    let area = r.inset(border);
    trails_drawn(ws, across, area, leads_drawn(ws, across, area, decorated(border, colors, g, r), ws.len() as int), 0)
}

/// The grid after the start-aligned children among the first `k` of `ws` are drawn,
/// in order.
pub open spec fn leads_drawn(ws: Seq<Widget>, across: bool, area: Rect, g: Grid, k: int) -> Grid
    decreases ws, k,
{
    if k <= 0 || k > ws.len() {
        g
    } else {
        let prev = leads_drawn(ws, across, area, g, k - 1);
        let w = ws[k - 1];
        if w.alignment() == Alignment::Start {
            match placed(ws, across, area, k - 1) {
                Some(p) => drawn(w, prev, p),
                None => prev,
            }
        } else {
            prev
        }
    }
}

/// The grid after the end-aligned children of `ws` from `k` on are drawn, last one first.
pub open spec fn trails_drawn(ws: Seq<Widget>, across: bool, area: Rect, g: Grid, k: int) -> Grid
    decreases ws, ws.len() - k,
{
    if k < 0 || k >= ws.len() {
        g
    } else {
        let prev = trails_drawn(ws, across, area, g, k + 1);
        let w = ws[k];
        if w.alignment() == Alignment::End {
            match placed(ws, across, area, k) {
                Some(p) => drawn(w, prev, p),
                None => prev,
            }
        } else {
            prev
        }
    }
}

/// The area inside a border lies within the rectangle.
proof fn lemma_inset_within(r: Rect, border: Option<BorderLine>)
    requires
        r.x + r.width <= usize::MAX,
        r.y + r.height <= usize::MAX,
    ensures
        within(r.inset(border), r),
{
}

/// Every placed child's part lies within the area.
proof fn lemma_placed_within(ws: Seq<Widget>, across: bool, area: Rect, i: int)
    requires
        0 <= i < ws.len(),
        area.x + area.width <= usize::MAX,
        area.y + area.height <= usize::MAX,
    ensures
        placed(ws, across, area, i) matches Some(p) ==> within(p, area),
{
    lemma_slot_within(constraints_of(ws), alignments_of(ws), extent_of(area, across), i);
}

/// Rendering a widget into `r` changes the grid only inside `r`.
pub proof fn lemma_drawn_same_outside(w: Widget, g: Grid, r: Rect)
    requires
        fits_grid(g, r),
        g.cols <= usize::MAX,
        g.rows.len() <= usize::MAX,
    ensures
        same_outside(g, drawn(w, g, r), r),
    decreases w, 0int,
{
    match w {
        Widget::Horizontal(h) => lemma_container_same_outside(h.children(), h.border(), h.colors(), true, g, r),
        Widget::Vertical(v) => lemma_container_same_outside(v.children(), v.border(), v.colors(), false, g, r),
    }
}

/// Rendering a container into `r` changes the grid only inside `r`.
pub proof fn lemma_container_same_outside(
    ws: Seq<Widget>,
    border: Option<BorderLine>,
    colors: (Option<Color>, Option<Color>),
    across: bool,
    g: Grid,
    r: Rect,
)
    requires
        fits_grid(g, r),
        g.cols <= usize::MAX,
        g.rows.len() <= usize::MAX,
    ensures
        same_outside(g, container_drawn(ws, border, colors, across, g, r), r),
    decreases ws, ws.len() + 1,
{
    let area = r.inset(border);
    let g1 = decorated(border, colors, g, r);
    lemma_composite_same_outside(
        g,
        r.border_rows(border),
        Seq::new(r.height as nat, |y: int| color_bracket(front_seq(colors.0), back_seq(colors.1), r.width as nat)),
        r,
    );
    lemma_inset_within(r, border);
    lemma_leads_same_outside(ws, across, area, g1, ws.len() as int);
    let g2 = leads_drawn(ws, across, area, g1, ws.len() as int);
    lemma_same_outside_trans(g, g1, g2, r, area);
    lemma_trails_same_outside(ws, across, area, g2, 0);
    let g3 = trails_drawn(ws, across, area, g2, 0);
    lemma_same_outside_trans(g, g2, g3, r, area);
}

/// Drawing the start-aligned children changes the grid only inside the area.
pub proof fn lemma_leads_same_outside(ws: Seq<Widget>, across: bool, area: Rect, g: Grid, k: int)
    requires
        fits_grid(g, area),
        g.cols <= usize::MAX,
        g.rows.len() <= usize::MAX,
    ensures
        same_outside(g, leads_drawn(ws, across, area, g, k), area),
    decreases ws, k,
{
    if k <= 0 || k > ws.len() {
        lemma_same_outside_refl(g, area);
    } else {
        lemma_leads_same_outside(ws, across, area, g, k - 1);
        let prev = leads_drawn(ws, across, area, g, k - 1);
        let w = ws[k - 1];
        lemma_placed_within(ws, across, area, k - 1);
        if w.alignment() == Alignment::Start {
            if let Some(p) = placed(ws, across, area, k - 1) {
                lemma_drawn_same_outside(w, prev, p);
                lemma_same_outside_trans(g, prev, drawn(w, prev, p), area, p);
            }
        }
    }
}

/// Drawing the end-aligned children changes the grid only inside the area.
pub proof fn lemma_trails_same_outside(ws: Seq<Widget>, across: bool, area: Rect, g: Grid, k: int)
    requires
        fits_grid(g, area),
        g.cols <= usize::MAX,
        g.rows.len() <= usize::MAX,
    ensures
        same_outside(g, trails_drawn(ws, across, area, g, k), area),
    decreases ws, ws.len() - k,
{
    if k < 0 || k >= ws.len() {
        lemma_same_outside_refl(g, area);
    } else {
        lemma_trails_same_outside(ws, across, area, g, k + 1);
        let prev = trails_drawn(ws, across, area, g, k + 1);
        let w = ws[k];
        lemma_placed_within(ws, across, area, k);
        if w.alignment() == Alignment::End {
            if let Some(p) = placed(ws, across, area, k) {
                lemma_drawn_same_outside(w, prev, p);
                lemma_same_outside_trans(g, prev, drawn(w, prev, p), area, p);
            }
        }
    }
}

impl Frame {
    spec fn fresh(&self, constraint: Constraint, alignment: Alignment) -> bool {
        &&& self.constraint == constraint
        &&& self.alignment == alignment
        &&& self.widgets@.len() == 0
        &&& self.border is None
        &&& self.front_color is None
        &&& self.back_color is None
    }

    fn new(constraint: Constraint, alignment: Alignment) -> (f: Self)
        ensures
            f.fresh(constraint, alignment),
    {
        Frame { constraint, alignment, widgets: Vec::new(), border: None, front_color: None, back_color: None }
    }

    /// Draws the border and colors into `rect`, then each placed child into its part
    /// of the inner area: the start-aligned ones in order, then the end-aligned ones
    /// in reverse order.
    fn draw(&self, across: bool, buffer: &mut Buffer, rect: Rect)
        requires
            old(buffer).wf(),
            old(buffer).fits(rect),
        ensures
            final(buffer).wf(),
            final(buffer).cols() == old(buffer).cols(),
            final(buffer).lines() == old(buffer).lines(),
            final(buffer).grid() == container_drawn(
                self.widgets@,
                self.border,
                (self.front_color, self.back_color),
                across,
                old(buffer).grid(),
                rect,
            ),
        decreases self,
    {
        let ghost ws = self.widgets@;
        let front = match &self.front_color {
            Some(c) => Some(c.copied()),
            None => None,
        };
        let back = match &self.back_color {
            Some(c) => Some(c.copied()),
            None => None,
        };
        let lines = rect.make_border_buf(self.border);
        let effects = rect.make_color_eff_vec(front, back);
        assert(style_rows(effects@) =~= Seq::new(
            rect.height as nat,
            |y: int| color_bracket(front_seq(self.front_color), back_seq(self.back_color), rect.width as nat),
        ));
        let _ = buffer.push_rect_buffer(lines, effects, rect);
        let ghost g1 = buffer.grid();
        assert(g1 == decorated(self.border, (self.front_color, self.back_color), old(buffer).grid(), rect));
        let area = rect.make_bordered_rect(self.border);
        let n = self.widgets.len();
        let mut cons: Vec<Constraint> = Vec::new();
        let mut aligns: Vec<Alignment> = Vec::new();
        let mut i: usize = 0;
        while i < n
            invariant
                i <= n == self.widgets@.len(),
                ws == self.widgets@,
                cons@.len() == i,
                aligns@.len() == i,
                forall|j: int| 0 <= j < i ==> #[trigger] cons@[j] == ws[j].constraint(),
                forall|j: int| 0 <= j < i ==> #[trigger] aligns@[j] == ws[j].alignment(),
            decreases n - i,
        {
            cons.push(self.widgets[i].get_constraint());
            aligns.push(self.widgets[i].get_alignment());
            i += 1;
        }
        assert(cons@ =~= constraints_of(ws));
        assert(aligns@ =~= alignments_of(ws));
        let extent = if across {
            area.width
        } else {
            area.height
        };
        let slots = split_extent(&cons, &aligns, extent);
        let mut i: usize = 0;
        while i < n
            invariant
                i <= n == self.widgets@.len() == aligns@.len() == slots@.len(),
                ws == self.widgets@,
                aligns@ == alignments_of(ws),
                buffer.wf(),
                buffer.cols() == old(buffer).cols(),
                buffer.lines() == old(buffer).lines(),
                buffer.grid() == leads_drawn(ws, across, area, g1, i as int),
                old(buffer).fits(area),
                extent == extent_of(area, across),
                forall|j: int| 0 <= j < n ==> (#[trigger] slots@[j] matches Some((o, m)) ==> o + m <= extent),
                forall|j: int|
                    0 <= j < n ==> #[trigger] slot_of(slots@[j]) == slot(constraints_of(ws), alignments_of(ws), extent as nat, j),
            decreases n - i,
        {
            assert(aligns@[i as int] == ws[i as int].alignment());
            assert(slot_of(slots@[i as int]) == slot(constraints_of(ws), alignments_of(ws), extent as nat, i as int));
            if aligns[i] == Alignment::Start {
                if let Some((o, m)) = slots[i] {
                    let sub = if across {
                        Rect::new(area.x + o, area.y, m, area.height)
                    } else {
                        Rect::new(area.x, area.y + o, area.width, m)
                    };
                    assert(sub == part(area, across, (o as int, m as int)));
                    self.widgets[i].write_buffer(buffer, sub);
                }
            }
            i += 1;
        }
        let ghost g2 = buffer.grid();
        let mut k: usize = n;
        while k > 0
            invariant
                k <= n == self.widgets@.len() == aligns@.len() == slots@.len(),
                ws == self.widgets@,
                aligns@ == alignments_of(ws),
                buffer.wf(),
                buffer.cols() == old(buffer).cols(),
                buffer.lines() == old(buffer).lines(),
                buffer.grid() == trails_drawn(ws, across, area, g2, k as int),
                old(buffer).fits(area),
                extent == extent_of(area, across),
                forall|j: int| 0 <= j < n ==> (#[trigger] slots@[j] matches Some((o, m)) ==> o + m <= extent),
                forall|j: int|
                    0 <= j < n ==> #[trigger] slot_of(slots@[j]) == slot(constraints_of(ws), alignments_of(ws), extent as nat, j),
            decreases k,
        {
            k -= 1;
            assert(aligns@[k as int] == ws[k as int].alignment());
            assert(slot_of(slots@[k as int]) == slot(constraints_of(ws), alignments_of(ws), extent as nat, k as int));
            if aligns[k] == Alignment::End {
                if let Some((o, m)) = slots[k] {
                    let sub = if across {
                        Rect::new(area.x + o, area.y, m, area.height)
                    } else {
                        Rect::new(area.x, area.y + o, area.width, m)
                    };
                    assert(sub == part(area, across, (o as int, m as int)));
                    self.widgets[k].write_buffer(buffer, sub);
                }
            }
        }
    }
}

impl Widget {
    pub open spec fn constraint(&self) -> Constraint {
        match self {
            Widget::Horizontal(h) => h.constraint(),
            Widget::Vertical(v) => v.constraint(),
        }
    }

    pub open spec fn alignment(&self) -> Alignment {
        match self {
            Widget::Horizontal(h) => h.alignment(),
            Widget::Vertical(v) => v.alignment(),
        }
    }

    pub fn get_constraint(&self) -> (c: Constraint)
        ensures
            c == self.constraint(),
    {
        match self {
            Widget::Horizontal(h) => h.frame.constraint,
            Widget::Vertical(v) => v.frame.constraint,
        }
    }

    pub fn get_alignment(&self) -> (a: Alignment)
        ensures
            a == self.alignment(),
    {
        match self {
            Widget::Horizontal(h) => h.frame.alignment,
            Widget::Vertical(v) => v.frame.alignment,
        }
    }

    /// Renders the widget, and its children in turn, into `rect` of `buffer`.
    pub fn write_buffer(&self, buffer: &mut Buffer, rect: Rect)
        requires
            old(buffer).wf(),
            old(buffer).fits(rect),
        ensures
            final(buffer).wf(),
            final(buffer).cols() == old(buffer).cols(),
            final(buffer).lines() == old(buffer).lines(),
            final(buffer).grid() == drawn(*self, old(buffer).grid(), rect),
            same_outside(old(buffer).grid(), final(buffer).grid(), rect),
        decreases self,
    {
        proof {
            lemma_drawn_same_outside(*self, buffer.grid(), rect);
        }
        match self {
            Widget::Horizontal(h) => h.frame.draw(true, buffer, rect),
            Widget::Vertical(v) => v.frame.draw(false, buffer, rect),
        }
    }
}

impl Horizontal {
    pub closed spec fn children(&self) -> Seq<Widget> {
        self.frame.widgets@
    }

    pub closed spec fn border(&self) -> Option<BorderLine> {
        self.frame.border
    }

    pub closed spec fn colors(&self) -> (Option<Color>, Option<Color>) {
        (self.frame.front_color, self.frame.back_color)
    }

    pub closed spec fn constraint(&self) -> Constraint {
        self.frame.constraint
    }

    pub closed spec fn alignment(&self) -> Alignment {
        self.frame.alignment
    }

    pub fn new(constraint: Constraint, alignment: Alignment) -> (h: Self)
        ensures
            h.constraint() == constraint,
            h.alignment() == alignment,
            h.children().len() == 0,
            h.border() is None,
            h.colors() == (None::<Color>, None::<Color>),
    {
        Horizontal { frame: Frame::new(constraint, alignment) }
    }

    /// Appends a child.
    pub fn add(self, widget: Widget) -> (h: Self)
        ensures
            h.children() == self.children().push(widget),
            h.border() == self.border(),
            h.colors() == self.colors(),
            h.constraint() == self.constraint(),
            h.alignment() == self.alignment(),
    {
        let mut h = self;
        h.frame.widgets.push(widget);
        h
    }

    pub fn set_border(self, line: Option<BorderLine>) -> (h: Self)
        ensures
            h.border() == line,
            h.children() == self.children(),
            h.colors() == self.colors(),
            h.constraint() == self.constraint(),
            h.alignment() == self.alignment(),
    {
        let mut h = self;
        h.frame.border = line;
        h
    }

    pub fn set_color(self, front: Option<Color>, back: Option<Color>) -> (h: Self)
        ensures
            h.colors() == (front, back),
            h.children() == self.children(),
            h.border() == self.border(),
            h.constraint() == self.constraint(),
            h.alignment() == self.alignment(),
    {
        let mut h = self;
        h.frame.front_color = front;
        h.frame.back_color = back;
        h
    }

    /// Draws the container into `rect`, splitting its inner width among its children.
    pub fn write_buffer(&self, buffer: &mut Buffer, rect: Rect)
        requires
            old(buffer).wf(),
            old(buffer).fits(rect),
        ensures
            final(buffer).wf(),
            final(buffer).cols() == old(buffer).cols(),
            final(buffer).lines() == old(buffer).lines(),
            final(buffer).grid() == container_drawn(
                self.children(),
                self.border(),
                self.colors(),
                true,
                old(buffer).grid(),
                rect,
            ),
            same_outside(old(buffer).grid(), final(buffer).grid(), rect),
    {
        proof {
            lemma_container_same_outside(self.children(), self.border(), self.colors(), true, buffer.grid(), rect);
        }
        self.frame.draw(true, buffer, rect)
    }
}

impl Vertical {
    pub closed spec fn children(&self) -> Seq<Widget> {
        self.frame.widgets@
    }

    pub closed spec fn border(&self) -> Option<BorderLine> {
        self.frame.border
    }

    pub closed spec fn colors(&self) -> (Option<Color>, Option<Color>) {
        (self.frame.front_color, self.frame.back_color)
    }

    pub closed spec fn constraint(&self) -> Constraint {
        self.frame.constraint
    }

    pub closed spec fn alignment(&self) -> Alignment {
        self.frame.alignment
    }

    pub fn new(constraint: Constraint, alignment: Alignment) -> (v: Self)
        ensures
            v.constraint() == constraint,
            v.alignment() == alignment,
            v.children().len() == 0,
            v.border() is None,
            v.colors() == (None::<Color>, None::<Color>),
    {
        Vertical { frame: Frame::new(constraint, alignment) }
    }

    /// Appends a child.
    pub fn add(self, widget: Widget) -> (v: Self)
        ensures
            v.children() == self.children().push(widget),
            v.border() == self.border(),
            v.colors() == self.colors(),
            v.constraint() == self.constraint(),
            v.alignment() == self.alignment(),
    {
        let mut v = self;
        v.frame.widgets.push(widget);
        v
    }

    pub fn set_border(self, line: Option<BorderLine>) -> (v: Self)
        ensures
            v.border() == line,
            v.children() == self.children(),
            v.colors() == self.colors(),
            v.constraint() == self.constraint(),
            v.alignment() == self.alignment(),
    {
        let mut v = self;
        v.frame.border = line;
        v
    }

    pub fn set_color(self, front: Option<Color>, back: Option<Color>) -> (v: Self)
        ensures
            v.colors() == (front, back),
            v.children() == self.children(),
            v.border() == self.border(),
            v.constraint() == self.constraint(),
            v.alignment() == self.alignment(),
    {
        let mut v = self;
        v.frame.front_color = front;
        v.frame.back_color = back;
        v
    }

    /// Draws the container into `rect`, splitting its inner height among its children.
    pub fn write_buffer(&self, buffer: &mut Buffer, rect: Rect)
        requires
            old(buffer).wf(),
            old(buffer).fits(rect),
        ensures
            final(buffer).wf(),
            final(buffer).cols() == old(buffer).cols(),
            final(buffer).lines() == old(buffer).lines(),
            final(buffer).grid() == container_drawn(
                self.children(),
                self.border(),
                self.colors(),
                false,
                old(buffer).grid(),
                rect,
            ),
            same_outside(old(buffer).grid(), final(buffer).grid(), rect),
    {
        proof {
            lemma_container_same_outside(self.children(), self.border(), self.colors(), false, buffer.grid(), rect);
        }
        self.frame.draw(false, buffer, rect)
    }
}

/// A widget that shows a line of text; it asks for exactly the text's width.
pub struct Button {
    text: String,
    constraint: Constraint,
}

impl Button {
    pub closed spec fn constraint(&self) -> Constraint {
        self.constraint
    }

    pub fn new(text: String) -> (b: Self)
        ensures
            b.constraint() == Constraint::constant_spec(unicode_str_width_of(text@)),
    {
        let size = text_width(text.as_str());
        Button { text, constraint: Constraint::constant(size) }
    }

    pub fn get_constraint(&self) -> (c: Constraint)
        ensures
            c == self.constraint(),
    {
        self.constraint
    }
}

} // verus!
