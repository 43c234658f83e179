//! What the canvas draws over the page: guides, snap lines, the pixel grid, rulers, measurements and
//! the path being drawn with the pen, as lists of simple marks on the screen.
use vstd::prelude::*;

use crate::color::Color32;
use crate::document::{Guide, GuideOrientation};
use crate::geometry::{Pos2, Rect, Vec2};
use crate::model::PathPoint;
use crate::path_edit::{flatten_path, Viewport};
use crate::scalar::Scalar;
use crate::snapping::axis_gap;

verus! {

/// What a mark's colour stands for.
#[derive(Clone, Copy, Debug, PartialEq, Eq, Structural)]
pub enum Ink {
    Selection,
    /// The selection colour at six tenths.
    SelectionDim,
    /// The selection colour at fifteen hundredths.
    SelectionWash,
    White,
    /// The lines and rims of path handles.
    HandleGrey,
    Snap,
    Guide,
    Measure,
    Grid,
    RulerBack,
    RulerLine,
    RulerText,
    /// The outline of a shape being drawn.
    Draft,
    /// The inside of a shape being drawn.
    DraftFill,
    /// The inside of an oval being drawn.
    DraftOval,
}

impl Ink {
    /// The colour of the ink, its channels multiplied by its alpha.
    pub open spec fn spec_color(self) -> Color32 {
        match self {
            Ink::Selection => Color32 { r: 0, g: 122, b: 255, a: 255 },
            Ink::SelectionDim => Color32 { r: 0, g: 73, b: 153, a: 153 },
            Ink::SelectionWash => Color32 { r: 0, g: 18, b: 38, a: 38 },
            Ink::White => Color32 { r: 255, g: 255, b: 255, a: 255 },
            Ink::HandleGrey => Color32 { r: 120, g: 120, b: 120, a: 255 },
            Ink::Snap => Color32 { r: 255, g: 0, b: 170, a: 255 },
            Ink::Guide => Color32 { r: 0, g: 170, b: 255, a: 255 },
            Ink::Measure => Color32 { r: 255, g: 64, b: 64, a: 255 },
            Ink::Grid => Color32 { r: 0, g: 0, b: 0, a: 40 },
            Ink::RulerBack => Color32 { r: 246, g: 246, b: 246, a: 255 },
            Ink::RulerLine => Color32 { r: 170, g: 170, b: 170, a: 255 },
            Ink::RulerText => Color32 { r: 100, g: 100, b: 100, a: 255 },
            Ink::Draft => Color32 { r: 30, g: 30, b: 30, a: 255 },
            Ink::DraftFill => Color32::spec_unmultiplied(216, 216, 216, 160),
            Ink::DraftOval => Color32::spec_unmultiplied(180, 180, 180, 160),
        }
    }

    /// The colour of the ink, its channels multiplied by its alpha.
    pub fn color(self) -> (r: Color32)
        ensures
            r == self.spec_color(),
    {
        match self {
            Ink::Selection => Color32::from_rgb(0, 122, 255),
            Ink::SelectionDim => Color32::from_rgba_premultiplied(0, 73, 153, 153),
            Ink::SelectionWash => Color32::from_rgba_premultiplied(0, 18, 38, 38),
            Ink::White => Color32::from_rgb(255, 255, 255),
            Ink::HandleGrey => Color32::from_rgb(120, 120, 120),
            Ink::Snap => Color32::from_rgb(255, 0, 170),
            Ink::Guide => Color32::from_rgb(0, 170, 255),
            Ink::Measure => Color32::from_rgb(255, 64, 64),
            Ink::Grid => Color32::from_rgba_premultiplied(0, 0, 0, 40),
            Ink::RulerBack => Color32::from_rgb(246, 246, 246),
            Ink::RulerLine => Color32::from_rgb(170, 170, 170),
            Ink::RulerText => Color32::from_rgb(100, 100, 100),
            Ink::Draft => Color32::from_rgb(30, 30, 30),
            Ink::DraftFill => Color32::from_rgba_unmultiplied(216, 216, 216, 160),
            Ink::DraftOval => Color32::from_rgba_unmultiplied(180, 180, 180, 160),
        }
    }
}

/// Which point of a label is at its place.
#[derive(Clone, Copy, Debug, PartialEq, Eq, Structural)]
pub enum LabelAnchor {
    LeftTop,
    LeftCenter,
    CenterBottom,
    /// The left top, with the text running upwards.
    TurnedLeftTop,
}

/// One thing drawn on the screen.
#[derive(Debug, PartialEq)]
pub enum Mark<S> {
    Line { from: Pos2<S>, to: Pos2<S>, width: S, ink: Ink },
    Disc { center: Pos2<S>, radius: S, ink: Ink },
    Ring { center: Pos2<S>, radius: S, width: S, ink: Ink },
    /// A disc with a rim.
    Knob { center: Pos2<S>, radius: S, ink: Ink, width: S, rim: Ink },
    Block { rect: Rect<S>, ink: Ink },
    /// A rectangle drawn around the outside of its edge.
    Outline { rect: Rect<S>, width: S, ink: Ink },
    /// A closed line through four corners.
    Tilted { a: Pos2<S>, b: Pos2<S>, c: Pos2<S>, d: Pos2<S>, width: S, ink: Ink },
    /// A block with a rim on the inside of its edge.
    Panel { rect: Rect<S>, ink: Ink, width: S, rim: Ink },
    /// A number without decimals.
    Number { at: Pos2<S>, value: S, anchor: LabelAnchor, ink: Ink },
}

impl<S: Scalar> Clone for Mark<S> {
    fn clone(&self) -> (r: Self)
        ensures
            r == *self,
    {
        *self
    }
}

impl<S: Scalar> Copy for Mark<S> {

}

/// The canvas as marks see it.
#[derive(Debug, PartialEq)]
pub struct Screen<S> {
    pub viewport: Viewport<S>,
    /// Where the page's own origin is drawn before panning.
    pub origin: Pos2<S>,
    /// The part of the screen that shows the page.
    pub canvas_rect: Rect<S>,
}

impl<S: Scalar> Clone for Screen<S> {
    fn clone(&self) -> (r: Self)
        ensures
            r == *self,
    {
        *self
    }
}

impl<S: Scalar> Copy for Screen<S> {

}

impl<S: Scalar> Screen<S> {
    pub open spec fn spec_place(self, p: Pos2<S>) -> Pos2<S> {
        self.viewport.spec_to_screen(self.origin, p)
    }

    /// Where a point of the page is on the screen.
    pub fn place(self, p: Pos2<S>) -> (r: Pos2<S>)
        ensures
            r == self.spec_place(p),
    {
        self.viewport.to_screen(self.origin, p)
    }

    /// A line down the whole canvas at the page's `x`.
    pub open spec fn spec_upright(self, x: S, ink: Ink) -> Mark<S> {
        let sx = self.spec_place(Pos2 { x, y: S::spec_ratio(0, 1) }).x;
        Mark::Line {
            from: Pos2 { x: sx, y: self.canvas_rect.min.y },
            to: Pos2 { x: sx, y: self.canvas_rect.max.y },
            width: S::spec_ratio(1, 1),
            ink,
        }
    }

    /// A line across the whole canvas at the page's `y`.
    pub open spec fn spec_level(self, y: S, ink: Ink) -> Mark<S> {
        let sy = self.spec_place(Pos2 { x: S::spec_ratio(0, 1), y }).y;
        Mark::Line {
            from: Pos2 { x: self.canvas_rect.min.x, y: sy },
            to: Pos2 { x: self.canvas_rect.max.x, y: sy },
            width: S::spec_ratio(1, 1),
            ink,
        }
    }

    /// A line down the whole canvas at the page's `x`.
    pub fn upright(self, x: S, ink: Ink) -> (r: Mark<S>)
        ensures
            r == self.spec_upright(x, ink),
    {
        let sx = self.place(Pos2 { x, y: S::ratio(0, 1) }).x;
        Mark::Line {
            from: Pos2 { x: sx, y: self.canvas_rect.min.y },
            to: Pos2 { x: sx, y: self.canvas_rect.max.y },
            width: S::ratio(1, 1),
            ink,
        }
    }

    /// A line across the whole canvas at the page's `y`.
    pub fn level(self, y: S, ink: Ink) -> (r: Mark<S>)
        ensures
            r == self.spec_level(y, ink),
    {
        let sy = self.place(Pos2 { x: S::ratio(0, 1), y }).y;
        Mark::Line {
            from: Pos2 { x: self.canvas_rect.min.x, y: sy },
            to: Pos2 { x: self.canvas_rect.max.x, y: sy },
            width: S::ratio(1, 1),
            ink,
        }
    }
}

/// The lines that show what a drag snapped to.
pub open spec fn snap_lines<S: Scalar>(screen: Screen<S>, x: Option<S>, y: Option<S>) -> Seq<
    Mark<S>,
> {
    let across = match x {
        Some(v) => seq![screen.spec_upright(v, Ink::Snap)],
        None => Seq::empty(),
    };
    match y {
        Some(v) => across.push(screen.spec_level(v, Ink::Snap)),
        None => across,
    }
}

/// The lines that show what a drag snapped to.
pub fn draw_snap_lines<S: Scalar>(screen: Screen<S>, line_x: Option<S>, line_y: Option<S>) -> (r:
    Vec<Mark<S>>)
    ensures
        r@ == snap_lines(screen, line_x, line_y),
{
    let mut r: Vec<Mark<S>> = Vec::new();
    if let Some(x) = line_x {
        r.push(screen.upright(x, Ink::Snap));
    }
    if let Some(y) = line_y {
        r.push(screen.level(y, Ink::Snap));
    }
    assert(r@ =~= snap_lines(screen, line_x, line_y));
    r
}

/// The line of one guide.
pub open spec fn guide_mark<S: Scalar>(
    screen: Screen<S>,
    orientation: GuideOrientation,
    value: S,
) -> Mark<S> {
    match orientation {
        GuideOrientation::Horizontal => screen.spec_level(value, Ink::Guide),
        GuideOrientation::Vertical => screen.spec_upright(value, Ink::Guide),
    }
}

/// The line of one guide.
pub fn draw_guide_line<S: Scalar>(screen: Screen<S>, orientation: GuideOrientation, value: S) -> (r:
    Mark<S>)
    ensures
        r == guide_mark(screen, orientation, value),
{
    match orientation {
        GuideOrientation::Horizontal => screen.level(value, Ink::Guide),
        GuideOrientation::Vertical => screen.upright(value, Ink::Guide),
    }
}

/// The lines of all guides.
pub fn draw_guides<S: Scalar>(screen: Screen<S>, guides: &Vec<Guide<S>>) -> (r: Vec<Mark<S>>)
    ensures
        r@.len() == guides@.len(),
        forall|i: int|
            0 <= i < r@.len() ==> #[trigger] r@[i] == guide_mark(
                screen,
                guides@[i].orientation,
                guides@[i].pos,
            ),
{
    let mut r: Vec<Mark<S>> = Vec::new();
    let mut i: usize = 0;
    while i < guides.len()
        invariant
            i <= guides.len(),
            r.len() == i,
            forall|j: int|
                0 <= j < i ==> #[trigger] r@[j] == guide_mark(
                    screen,
                    guides@[j].orientation,
                    guides@[j].pos,
                ),
        decreases guides.len() - i,
    {
        r.push(draw_guide_line(screen, guides[i].orientation, guides[i].pos));
        i += 1;
    }
    r
}

/// A number as a whole one of 64 bits.
pub open spec fn as_i64<S: Scalar>(v: S) -> int {
    crate::scalar::clamp_int(v.spec_to_int(), i64::MIN as int, i64::MAX as int)
}

/// Grid lines at the whole numbers from `first` up to and without `end`.
pub open spec fn grid_lines<S: Scalar>(screen: Screen<S>, upright: bool, first: int, end: int) -> Seq<
    Mark<S>,
>
    decreases end - first,
{
    if end <= first {
        Seq::empty()
    } else {
        let v = S::spec_ratio(end - 1, 1);
        grid_lines(screen, upright, first, end - 1).push(
            if upright {
                screen.spec_upright(v, Ink::Grid)
            } else {
                screen.spec_level(v, Ink::Grid)
            },
        )
    }
}

/// The pixel grid: nothing below four times the page's size, or else a line at every whole
/// coordinate in sight.
pub open spec fn pixel_grid<S: Scalar>(screen: Screen<S>) -> Seq<Mark<S>> {
    if screen.viewport.zoom.spec_lt(S::spec_ratio(4, 1)) {
        Seq::empty()
    } else {
        let lo = screen.viewport.spec_to_doc(screen.origin, screen.canvas_rect.min);
        let hi = screen.viewport.spec_to_doc(screen.origin, screen.canvas_rect.max);
        grid_lines(
            screen,
            true,
            as_i64(lo.x.spec_floored()),
            as_i64(hi.x.spec_ceiled()) + 1,
        ) + grid_lines(
            screen,
            false,
            as_i64(lo.y.spec_floored()),
            as_i64(hi.y.spec_ceiled()) + 1,
        )
    }
}

/// Appends grid lines at the whole numbers from `first` to `last`.
fn push_grid_lines<S: Scalar>(
    screen: Screen<S>,
    upright: bool,
    first: i64,
    last: i64,
    out: &mut Vec<Mark<S>>,
)
    ensures
        final(out)@ == old(out)@ + grid_lines(screen, upright, first as int, last + 1),
{
    let ghost start = out@;
    if first > last {
        assert(out@ =~= start + grid_lines(screen, upright, first as int, last + 1));
        return;
    }
    let mut i: i64 = first;
    assert(out@ =~= start + grid_lines(screen, upright, first as int, i as int));
    while i < last
        invariant
            first <= i <= last,
            out@ == start + grid_lines(screen, upright, first as int, i as int),
        decreases last - i,
    {
        let v = S::of_int(i);
        out.push(
            if upright {
                screen.upright(v, Ink::Grid)
            } else {
                screen.level(v, Ink::Grid)
            },
        );
        i += 1;
        assert(out@ =~= start + grid_lines(screen, upright, first as int, i as int));
    }
    let v = S::of_int(last);
    out.push(
        if upright {
            screen.upright(v, Ink::Grid)
        } else {
            screen.level(v, Ink::Grid)
        },
    );
    assert(out@ =~= start + grid_lines(screen, upright, first as int, last + 1));
}

/// The pixel grid, once the page is shown large enough for it.
pub fn draw_pixel_grid<S: Scalar>(screen: Screen<S>) -> (r: Vec<Mark<S>>)
    ensures
        r@ == pixel_grid(screen),
{
    let mut r: Vec<Mark<S>> = Vec::new();
    if screen.viewport.zoom.is_lt(S::ratio(4, 1)) {
        return r;
    }
    let lo = screen.viewport.to_doc(screen.origin, screen.canvas_rect.min);
    let hi = screen.viewport.to_doc(screen.origin, screen.canvas_rect.max);
    push_grid_lines(screen, true, lo.x.floored().to_i64(), hi.x.ceiled().to_i64(), &mut r);
    push_grid_lines(screen, false, lo.y.floored().to_i64(), hi.y.ceiled().to_i64(), &mut r);
    assert(r@ =~= pixel_grid(screen));
    r
}

/// The distance between labelled ruler ticks: one, two or five times a power of ten, near
/// `target_screen` pixels.
pub open spec fn ruler_step<S: Scalar>(zoom: S, target_screen: S) -> S {
    let raw = target_screen.spec_over(zoom).spec_greater(S::spec_ratio(1, 1000));
    let decade = raw.spec_decade();
    let residual = raw.spec_over(decade);
    let nice: int = if S::spec_ratio(5, 1).spec_lt(residual) {
        10
    } else if S::spec_ratio(2, 1).spec_lt(residual) {
        5
    } else if S::spec_ratio(1, 1).spec_lt(residual) {
        2
    } else {
        1
    };
    S::spec_ratio(nice, 1).spec_times(decade)
}

/// The distance between labelled ruler ticks.
pub fn nice_ruler_step<S: Scalar>(zoom: S, target_screen: S) -> (r: S)
    ensures
        r == ruler_step(zoom, target_screen),
{
    let raw = target_screen.over(zoom).greater(S::ratio(1, 1000));
    let decade = raw.decade();
    let residual = raw.over(decade);
    let nice: i32 = if S::ratio(5, 1).is_lt(residual) {
        10
    } else if S::ratio(2, 1).is_lt(residual) {
        5
    } else if S::ratio(1, 1).is_lt(residual) {
        2
    } else {
        1
    };
    S::ratio(nice, 1).times(decade)
}

/// A ruler strip: along the top, or along the left.
#[derive(Debug, PartialEq)]
pub struct Ruler<S> {
    pub screen: Screen<S>,
    pub strip: Rect<S>,
    /// Along the left, for the page's `y`.
    pub upright: bool,
    /// Between labelled ticks.
    pub step: S,
    /// Between ticks.
    pub minor: S,
}

impl<S: Scalar> Clone for Ruler<S> {
    fn clone(&self) -> (r: Self)
        ensures
            r == *self,
    {
        *self
    }
}

impl<S: Scalar> Copy for Ruler<S> {

}

impl<S: Scalar> Ruler<S> {
    /// Whether the tick at a coordinate is a labelled one.
    pub open spec fn spec_is_major(self, v: S) -> bool {
        let nearest = v.spec_over(self.step).spec_rounded().spec_times(self.step);
        v.spec_minus(nearest).spec_magnitude().spec_lt(
            self.minor.spec_times(S::spec_ratio(1, 2)),
        )
    }

    /// The tick number `i`, with its label where it has one; nothing where it is out of the strip.
    pub open spec fn spec_tick(self, i: int) -> Seq<Mark<S>> {
        let zero = S::spec_ratio(0, 1);
        let v = S::spec_ratio(i, 1).spec_times(self.minor);
        let strip = self.strip;
        let one = S::spec_ratio(1, 1);
        let two = S::spec_ratio(2, 1);
        let reach = S::spec_ratio(
            if self.spec_is_major(v) {
                9
            } else {
                5
            },
            1,
        );
        if self.upright {
            let at = self.screen.spec_place(Pos2 { x: zero, y: v }).y;
            let line = Mark::Line {
                from: Pos2 { x: strip.max.x.spec_minus(reach), y: at },
                to: Pos2 { x: strip.max.x, y: at },
                width: one,
                ink: Ink::RulerLine,
            };
            let label = Mark::Number {
                at: Pos2 { x: strip.min.x.spec_plus(one), y: at.spec_plus(two) },
                value: v,
                anchor: LabelAnchor::TurnedLeftTop,
                ink: Ink::RulerText,
            };
            if at.spec_lt(strip.min.y) || strip.max.y.spec_lt(at) {
                Seq::empty()
            } else if self.spec_is_major(v) {
                seq![line, label]
            } else {
                seq![line]
            }
        } else {
            let at = self.screen.spec_place(Pos2 { x: v, y: zero }).x;
            let line = Mark::Line {
                from: Pos2 { x: at, y: strip.max.y.spec_minus(reach) },
                to: Pos2 { x: at, y: strip.max.y },
                width: one,
                ink: Ink::RulerLine,
            };
            let label = Mark::Number {
                at: Pos2 { x: at.spec_plus(two), y: strip.min.y.spec_plus(one) },
                value: v,
                anchor: LabelAnchor::LeftTop,
                ink: Ink::RulerText,
            };
            if at.spec_lt(strip.min.x) || strip.max.x.spec_lt(at) {
                Seq::empty()
            } else if self.spec_is_major(v) {
                seq![line, label]
            } else {
                seq![line]
            }
        }
    }

    /// The ticks from number `first` up to and without `end`.
    pub open spec fn spec_ticks(self, first: int, end: int) -> Seq<Mark<S>>
        decreases end - first,
    {
        if end <= first {
            Seq::empty()
        } else {
            self.spec_ticks(first, end - 1) + self.spec_tick(end - 1)
        }
    }

    fn is_major(self, v: S) -> (r: bool)
        ensures
            r == self.spec_is_major(v),
    {
        let nearest = v.over(self.step).rounded().times(self.step);
        v.minus(nearest).magnitude().is_lt(self.minor.times(S::ratio(1, 2)))
    }

    fn push_tick(self, i: i64, out: &mut Vec<Mark<S>>)
        ensures
            final(out)@ == old(out)@ + self.spec_tick(i as int),
    {
        let ghost start = out@;
        let zero = S::ratio(0, 1);
        let v = S::of_int(i).times(self.minor);
        let strip = self.strip;
        let one = S::ratio(1, 1);
        let two = S::ratio(2, 1);
        let major = self.is_major(v);
        let reach = S::ratio(
            if major {
                9
            } else {
                5
            },
            1,
        );
        if self.upright {
            let at = self.screen.place(Pos2 { x: zero, y: v }).y;
            if !at.is_lt(strip.min.y) && !strip.max.y.is_lt(at) {
                out.push(
                    Mark::Line {
                        from: Pos2 { x: strip.max.x.minus(reach), y: at },
                        to: Pos2 { x: strip.max.x, y: at },
                        width: one,
                        ink: Ink::RulerLine,
                    },
                );
                if major {
                    out.push(
                        Mark::Number {
                            at: Pos2 { x: strip.min.x.plus(one), y: at.plus(two) },
                            value: v,
                            anchor: LabelAnchor::TurnedLeftTop,
                            ink: Ink::RulerText,
                        },
                    );
                }
            }
        } else {
            let at = self.screen.place(Pos2 { x: v, y: zero }).x;
            if !at.is_lt(strip.min.x) && !strip.max.x.is_lt(at) {
                out.push(
                    Mark::Line {
                        from: Pos2 { x: at, y: strip.max.y.minus(reach) },
                        to: Pos2 { x: at, y: strip.max.y },
                        width: one,
                        ink: Ink::RulerLine,
                    },
                );
                if major {
                    out.push(
                        Mark::Number {
                            at: Pos2 { x: at.plus(two), y: strip.min.y.plus(one) },
                            value: v,
                            anchor: LabelAnchor::LeftTop,
                            ink: Ink::RulerText,
                        },
                    );
                }
            }
        }
        assert(out@ =~= start + self.spec_tick(i as int));
    }

    fn push_ticks(self, first: i64, last: i64, out: &mut Vec<Mark<S>>)
        ensures
            final(out)@ == old(out)@ + self.spec_ticks(first as int, last + 1),
    {
        let ghost start = out@;
        if first > last {
            assert(out@ =~= start + self.spec_ticks(first as int, last + 1));
            return;
        }
        let mut i: i64 = first;
        assert(out@ =~= start + self.spec_ticks(first as int, i as int));
        while i < last
            invariant
                first <= i <= last,
                out@ == start + self.spec_ticks(first as int, i as int),
            decreases last - i,
        {
            self.push_tick(i, out);
            i += 1;
            assert(out@ =~= start + self.spec_ticks(first as int, i as int));
        }
        self.push_tick(last, out);
        assert(out@ =~= start + self.spec_ticks(first as int, last + 1));
    }
}

/// The strip along the top of a canvas inside `full`.
pub open spec fn top_strip<S>(full: Rect<S>, canvas: Rect<S>) -> Rect<S> {
    Rect {
        min: Pos2 { x: canvas.min.x, y: full.min.y },
        max: Pos2 { x: full.max.x, y: canvas.min.y },
    }
}

/// The strip along the left of a canvas inside `full`.
pub open spec fn left_strip<S>(full: Rect<S>, canvas: Rect<S>) -> Rect<S> {
    Rect {
        min: Pos2 { x: full.min.x, y: canvas.min.y },
        max: Pos2 { x: canvas.min.x, y: full.max.y },
    }
}

/// The grounds of the rulers and the lines along the canvas.
pub open spec fn ruler_grounds<S: Scalar>(full: Rect<S>, canvas: Rect<S>) -> Seq<Mark<S>> {
    let top = top_strip(full, canvas);
    let left = left_strip(full, canvas);
    seq![
        Mark::Block { rect: top, ink: Ink::RulerBack },
        Mark::Block { rect: left, ink: Ink::RulerBack },
        Mark::Block { rect: Rect { min: full.min, max: canvas.min }, ink: Ink::RulerBack },
        Mark::Line {
            from: Pos2 { x: top.min.x, y: top.max.y },
            to: top.max,
            width: S::spec_ratio(1, 1),
            ink: Ink::RulerLine,
        },
        Mark::Line {
            from: Pos2 { x: left.max.x, y: left.min.y },
            to: left.max,
            width: S::spec_ratio(1, 1),
            ink: Ink::RulerLine,
        },
    ]
}

/// The lines on both rulers that follow the pointer.
pub open spec fn ruler_pointer<S: Scalar>(
    full: Rect<S>,
    canvas: Rect<S>,
    hover: Option<Pos2<S>>,
) -> Seq<Mark<S>> {
    let top = top_strip(full, canvas);
    let left = left_strip(full, canvas);
    match hover {
        Some(p) => if canvas.spec_contains(p) || top.spec_contains(p) || left.spec_contains(p) {
            seq![
                Mark::Line {
                    from: Pos2 { x: p.x, y: top.min.y },
                    to: Pos2 { x: p.x, y: top.max.y },
                    width: S::spec_ratio(1, 1),
                    ink: Ink::Selection,
                },
                Mark::Line {
                    from: Pos2 { x: left.min.x, y: p.y },
                    to: Pos2 { x: left.max.x, y: p.y },
                    width: S::spec_ratio(1, 1),
                    ink: Ink::Selection,
                },
            ]
        } else {
            Seq::empty()
        },
        None => Seq::empty(),
    }
}

/// A ruler for the current view.
pub open spec fn ruler_of<S: Scalar>(screen: Screen<S>, strip: Rect<S>, upright: bool) -> Ruler<S> {
    let step = ruler_step(screen.viewport.zoom, S::spec_ratio(70, 1));
    Ruler { screen, strip, upright, step, minor: step.spec_over(S::spec_ratio(5, 1)) }
}

/// The rulers: grounds, ticks with labels, and the lines that follow the pointer.
pub open spec fn rulers<S: Scalar>(
    full: Rect<S>,
    screen: Screen<S>,
    hover: Option<Pos2<S>>,
) -> Seq<Mark<S>> {
    let canvas = screen.canvas_rect;
    let lo = screen.viewport.spec_to_doc(screen.origin, canvas.min);
    let hi = screen.viewport.spec_to_doc(screen.origin, canvas.max);
    let top = ruler_of(screen, top_strip(full, canvas), false);
    let left = ruler_of(screen, left_strip(full, canvas), true);
    ruler_grounds(full, canvas) + top.spec_ticks(
        as_i64(lo.x.spec_over(top.minor).spec_floored()),
        as_i64(hi.x.spec_over(top.minor).spec_ceiled()) + 1,
    ) + left.spec_ticks(
        as_i64(lo.y.spec_over(left.minor).spec_floored()),
        as_i64(hi.y.spec_over(left.minor).spec_ceiled()) + 1,
    ) + ruler_pointer(full, canvas, hover)
}

/// The rulers: grounds, ticks with labels, and the lines that follow the pointer.
#[verifier::rlimit(50)]
pub fn draw_rulers<S: Scalar>(full: Rect<S>, screen: Screen<S>, hover_pos: Option<Pos2<S>>) -> (r:
    Vec<Mark<S>>)
    ensures
        r@ == rulers(full, screen, hover_pos),
{
    let canvas = screen.canvas_rect;
    let top = Rect {
        min: Pos2 { x: canvas.min.x, y: full.min.y },
        max: Pos2 { x: full.max.x, y: canvas.min.y },
    };
    let left = Rect {
        min: Pos2 { x: full.min.x, y: canvas.min.y },
        max: Pos2 { x: canvas.min.x, y: full.max.y },
    };
    let one = S::ratio(1, 1);
    let mut r: Vec<Mark<S>> = Vec::new();
    r.push(Mark::Block { rect: top, ink: Ink::RulerBack });
    r.push(Mark::Block { rect: left, ink: Ink::RulerBack });
    r.push(Mark::Block { rect: Rect { min: full.min, max: canvas.min }, ink: Ink::RulerBack });
    r.push(
        Mark::Line {
            from: Pos2 { x: top.min.x, y: top.max.y },
            to: top.max,
            width: one,
            ink: Ink::RulerLine,
        },
    );
    r.push(
        Mark::Line {
            from: Pos2 { x: left.max.x, y: left.min.y },
            to: left.max,
            width: one,
            ink: Ink::RulerLine,
        },
    );
    assert(r@ =~= ruler_grounds(full, canvas));
    let lo = screen.viewport.to_doc(screen.origin, canvas.min);
    let hi = screen.viewport.to_doc(screen.origin, canvas.max);
    let step = nice_ruler_step(screen.viewport.zoom, S::ratio(70, 1));
    let minor = step.over(S::ratio(5, 1));
    let along_top = Ruler { screen, strip: top, upright: false, step, minor };
    let along_left = Ruler { screen, strip: left, upright: true, step, minor };
    along_top.push_ticks(
        lo.x.over(minor).floored().to_i64(),
        hi.x.over(minor).ceiled().to_i64(),
        &mut r,
    );
    along_left.push_ticks(
        lo.y.over(minor).floored().to_i64(),
        hi.y.over(minor).ceiled().to_i64(),
        &mut r,
    );
    let ghost ticked = r@;
    if let Some(p) = hover_pos {
        if canvas.contains(p) || top.contains(p) || left.contains(p) {
            r.push(
                Mark::Line {
                    from: Pos2 { x: p.x, y: top.min.y },
                    to: Pos2 { x: p.x, y: top.max.y },
                    width: one,
                    ink: Ink::Selection,
                },
            );
            r.push(
                Mark::Line {
                    from: Pos2 { x: left.min.x, y: p.y },
                    to: Pos2 { x: left.max.x, y: p.y },
                    width: one,
                    ink: Ink::Selection,
                },
            );
        }
    }
    assert(r@ =~= ticked + ruler_pointer(full, canvas, hover_pos));
    r
}

/// Dash number `k` of a line of the given direction and length.
pub open spec fn dash<S: Scalar>(a: Pos2<S>, dir: Vec2<S>, total: S, k: int, ink: Ink) -> Mark<S> {
    let t = S::spec_ratio(7 * k, 1);
    let end = t.spec_plus(S::spec_ratio(4, 1)).spec_lesser(total);
    Mark::Line {
        from: a.spec_plus(dir.spec_scaled(t)),
        to: a.spec_plus(dir.spec_scaled(end)),
        width: S::spec_ratio(1, 1),
        ink,
    }
}

/// The first `n` dashes, four long and three apart, of those that start before the end.
pub open spec fn dashes<S: Scalar>(a: Pos2<S>, dir: Vec2<S>, total: S, n: int, ink: Ink) -> Seq<
    Mark<S>,
>
    decreases n,
{
    if n <= 0 {
        Seq::empty()
    } else if S::spec_ratio(7 * (n - 1), 1).spec_lt(total) {
        dashes(a, dir, total, n - 1, ink).push(dash(a, dir, total, n - 1, ink))
    } else {
        dashes(a, dir, total, n - 1, ink)
    }
}

/// How many dashes a line of the given length can have, and no more than fit 32 bits.
pub open spec fn dash_count<S: Scalar>(total: S) -> int {
    crate::scalar::clamp_int(
        as_i64(total.spec_over(S::spec_ratio(7, 1)).spec_floored()),
        -1,
        u32::MAX as int,
    ) + 1
}

/// A dashed line; none where its ends are together.
pub open spec fn dashed_line<S: Scalar>(a: Pos2<S>, b: Pos2<S>, ink: Ink) -> Seq<Mark<S>> {
    let total = a.spec_distance(b);
    if total.spec_lt(S::spec_ratio(1, 100)) {
        Seq::empty()
    } else {
        dashes(a, b.spec_from(a).spec_shrunk(total), total, dash_count(total), ink)
    }
}

/// Appends a dashed line.
pub fn draw_dashed_line<S: Scalar>(a: Pos2<S>, b: Pos2<S>, ink: Ink, out: &mut Vec<Mark<S>>)
    ensures
        final(out)@ == old(out)@ + dashed_line(a, b, ink),
{
    let ghost start = out@;
    let total = a.distance(b);
    if total.is_lt(S::ratio(1, 100)) {
        assert(out@ =~= start + dashed_line(a, b, ink));
        return;
    }
    let dir = b.from(a).shrunk(total);
    let fit: i64 = total.over(S::ratio(7, 1)).floored().to_i64();
    let n: u64 = if fit < 0 {
        0
    } else if fit > u32::MAX as i64 {
        u32::MAX as u64 + 1
    } else {
        fit as u64 + 1
    };
    assert(n == dash_count(total));
    let mut k: u64 = 0;
    assert(out@ =~= start + dashes(a, dir, total, 0, ink));
    while k < n
        invariant
            k <= n <= u32::MAX + 1,
            out@ == start + dashes(a, dir, total, k as int, ink),
        decreases n - k,
    {
        let t = S::of_count(7 * k);
        if t.is_lt(total) {
            let end = t.plus(S::ratio(4, 1)).lesser(total);
            out.push(
                Mark::Line {
                    from: a.plus(dir.scaled(t)),
                    to: a.plus(dir.scaled(end)),
                    width: S::ratio(1, 1),
                    ink,
                },
            );
        }
        k += 1;
        assert(out@ =~= start + dashes(a, dir, total, k as int, ink));
    }
}

/// The coordinate at which the gap between two intervals is measured: in the middle of what two
/// others share, or else between their middles.
pub open spec fn measured_at<S: Scalar>(a: (S, S), b: (S, S), mid_a: S, mid_b: S) -> S {
    let lo = a.0.spec_greater(b.0);
    let hi = a.1.spec_lesser(b.1);
    if lo.spec_le(hi) {
        lo.spec_plus(hi).spec_over(S::spec_ratio(2, 1))
    } else {
        mid_a.spec_plus(mid_b).spec_over(S::spec_ratio(2, 1))
    }
}

fn measure_at<S: Scalar>(a: (S, S), b: (S, S), mid_a: S, mid_b: S) -> (r: S)
    ensures
        r == measured_at(a, b, mid_a, mid_b),
{
    let lo = a.0.greater(b.0);
    let hi = a.1.lesser(b.1);
    if lo.is_le(hi) {
        lo.plus(hi).over(S::ratio(2, 1))
    } else {
        mid_a.plus(mid_b).over(S::ratio(2, 1))
    }
}

/// The middle between two points.
pub open spec fn halfway<S: Scalar>(a: Pos2<S>, b: Pos2<S>) -> Pos2<S> {
    let h = S::spec_ratio(1, 2);
    Pos2 {
        x: h.spec_times(a.x).spec_plus(h.spec_times(b.x)),
        y: h.spec_times(a.y).spec_plus(h.spec_times(b.y)),
    }
}

fn midpoint<S: Scalar>(a: Pos2<S>, b: Pos2<S>) -> (r: Pos2<S>)
    ensures
        r == halfway(a, b),
{
    let h = S::ratio(1, 2);
    Pos2 { x: h.times(a.x).plus(h.times(b.x)), y: h.times(a.y).plus(h.times(b.y)) }
}

/// The gap between two boxes along one axis: a dashed line and its length; nothing where they
/// overlap on that axis.
pub open spec fn axis_measure<S: Scalar>(
    screen: Screen<S>,
    sel: Rect<S>,
    hover: Rect<S>,
    upright: bool,
) -> Seq<Mark<S>> {
    let cs = sel.spec_center();
    let ch = hover.spec_center();
    if upright {
        match crate::snapping::gap_between(sel.min.y, sel.max.y, hover.min.y, hover.max.y) {
            Some((y0, y1)) => {
                let x = measured_at(
                    (sel.min.x, sel.max.x),
                    (hover.min.x, hover.max.x),
                    cs.x,
                    ch.x,
                );
                let a = screen.spec_place(Pos2 { x, y: y0 });
                let b = screen.spec_place(Pos2 { x, y: y1 });
                dashed_line(a, b, Ink::Measure).push(
                    Mark::Number {
                        at: halfway(a, b).spec_plus(
                            Vec2 { x: S::spec_ratio(8, 1), y: S::spec_ratio(0, 1) },
                        ),
                        value: y1.spec_minus(y0),
                        anchor: LabelAnchor::LeftCenter,
                        ink: Ink::Measure,
                    },
                )
            },
            None => Seq::empty(),
        }
    } else {
        match crate::snapping::gap_between(sel.min.x, sel.max.x, hover.min.x, hover.max.x) {
            Some((x0, x1)) => {
                let y = measured_at(
                    (sel.min.y, sel.max.y),
                    (hover.min.y, hover.max.y),
                    cs.y,
                    ch.y,
                );
                let a = screen.spec_place(Pos2 { x: x0, y });
                let b = screen.spec_place(Pos2 { x: x1, y });
                dashed_line(a, b, Ink::Measure).push(
                    Mark::Number {
                        at: halfway(a, b).spec_plus(
                            Vec2 { x: S::spec_ratio(0, 1), y: S::spec_ratio(-8, 1) },
                        ),
                        value: x1.spec_minus(x0),
                        anchor: LabelAnchor::CenterBottom,
                        ink: Ink::Measure,
                    },
                )
            },
            None => Seq::empty(),
        }
    }
}

/// The distances between two boxes, on each axis on which they do not overlap.
pub fn draw_distance_measurement<S: Scalar>(screen: Screen<S>, sel: Rect<S>, hover: Rect<S>) -> (r:
    Vec<Mark<S>>)
    ensures
        r@ == axis_measure(screen, sel, hover, false) + axis_measure(screen, sel, hover, true),
{
    let mut r: Vec<Mark<S>> = Vec::new();
    let cs = sel.center();
    let ch = hover.center();
    if let Some((x0, x1)) = axis_gap(sel.min.x, sel.max.x, hover.min.x, hover.max.x) {
        let y = measure_at((sel.min.y, sel.max.y), (hover.min.y, hover.max.y), cs.y, ch.y);
        let a = screen.place(Pos2 { x: x0, y });
        let b = screen.place(Pos2 { x: x1, y });
        draw_dashed_line(a, b, Ink::Measure, &mut r);
        r.push(
            Mark::Number {
                at: midpoint(a, b).plus(Vec2 { x: S::ratio(0, 1), y: S::ratio(-8, 1) }),
                value: x1.minus(x0),
                anchor: LabelAnchor::CenterBottom,
                ink: Ink::Measure,
            },
        );
    }
    assert(r@ =~= axis_measure(screen, sel, hover, false));
    let ghost first = r@;
    if let Some((y0, y1)) = axis_gap(sel.min.y, sel.max.y, hover.min.y, hover.max.y) {
        let x = measure_at((sel.min.x, sel.max.x), (hover.min.x, hover.max.x), cs.x, ch.x);
        let a = screen.place(Pos2 { x, y: y0 });
        let b = screen.place(Pos2 { x, y: y1 });
        draw_dashed_line(a, b, Ink::Measure, &mut r);
        r.push(
            Mark::Number {
                at: midpoint(a, b).plus(Vec2 { x: S::ratio(8, 1), y: S::ratio(0, 1) }),
                value: y1.minus(y0),
                anchor: LabelAnchor::LeftCenter,
                ink: Ink::Measure,
            },
        );
    }
    assert(r@ =~= first + axis_measure(screen, sel, hover, true));
    r
}

/// The handle of a point that is being drawn: its line and its knob.
pub open spec fn pen_handle<S: Scalar>(
    screen: Screen<S>,
    p: PathPoint<S>,
    handle: Option<Vec2<S>>,
) -> Seq<Mark<S>> {
    match handle {
        Some(h) => {
            let at = screen.spec_place(p.anchor.spec_plus(h));
            seq![
                Mark::Line {
                    from: screen.spec_place(p.anchor),
                    to: at,
                    width: S::spec_ratio(1, 1),
                    ink: Ink::HandleGrey,
                },
                Mark::Disc { center: at, radius: S::spec_ratio(3, 1), ink: Ink::White },
                Mark::Ring {
                    center: at,
                    radius: S::spec_ratio(3, 1),
                    width: S::spec_ratio(1, 1),
                    ink: Ink::HandleGrey,
                },
            ]
        },
        None => Seq::empty(),
    }
}

/// The handles and anchors of the first `k` points that are being drawn; the first anchor is the
/// largest.
pub open spec fn pen_knobs<S: Scalar>(screen: Screen<S>, points: Seq<PathPoint<S>>, k: nat) -> Seq<
    Mark<S>,
>
    decreases k,
{
    if k == 0 {
        Seq::empty()
    } else {
        let p = points[k - 1];
        let radius = if k == 1 {
            S::spec_ratio(45, 10)
        } else {
            S::spec_ratio(45, 10).spec_times(S::spec_ratio(7, 10))
        };
        (pen_knobs(screen, points, (k - 1) as nat) + pen_handle(screen, p, p.handle_in)
            + pen_handle(screen, p, p.handle_out)).push(
            Mark::Knob {
                center: screen.spec_place(p.anchor),
                radius,
                ink: Ink::White,
                width: S::spec_ratio(15, 10),
                rim: Ink::Selection,
            },
        )
    }
}

/// The line from the last point that is being drawn to the pointer.
pub open spec fn pen_lead<S: Scalar>(
    screen: Screen<S>,
    points: Seq<PathPoint<S>>,
    hover: Option<Pos2<S>>,
) -> Seq<Mark<S>> {
    match hover {
        Some(h) => if points.len() > 0 {
            seq![
                Mark::Line {
                    from: screen.spec_place(points.last().anchor),
                    to: h,
                    width: S::spec_ratio(1, 1),
                    ink: Ink::SelectionDim,
                },
            ]
        } else {
            Seq::empty()
        },
        None => Seq::empty(),
    }
}

fn push_pen_handle<S: Scalar>(
    screen: Screen<S>,
    p: PathPoint<S>,
    handle: Option<Vec2<S>>,
    out: &mut Vec<Mark<S>>,
)
    ensures
        final(out)@ == old(out)@ + pen_handle(screen, p, handle),
{
    let ghost start = out@;
    if let Some(h) = handle {
        let at = screen.place(p.anchor.plus(h));
        out.push(
            Mark::Line {
                from: screen.place(p.anchor),
                to: at,
                width: S::ratio(1, 1),
                ink: Ink::HandleGrey,
            },
        );
        out.push(Mark::Disc { center: at, radius: S::ratio(3, 1), ink: Ink::White });
        out.push(
            Mark::Ring {
                center: at,
                radius: S::ratio(3, 1),
                width: S::ratio(1, 1),
                ink: Ink::HandleGrey,
            },
        );
    }
    assert(out@ =~= start + pen_handle(screen, p, handle));
}

/// Some points of the page on the screen.
pub open spec fn placed_points<S: Scalar>(screen: Screen<S>, points: Seq<Pos2<S>>) -> Seq<Pos2<S>> {
    Seq::new(points.len(), |i: int| screen.spec_place(points[i]))
}

/// The path being drawn with the pen: the line through its points on the screen, which is drawn
/// where it has at least two, and the marks over it.
pub fn draw_pen_preview<S: Scalar>(
    screen: Screen<S>,
    points: &Vec<PathPoint<S>>,
    hover_pos: Option<Pos2<S>>,
) -> (r: (Vec<Pos2<S>>, Vec<Mark<S>>))
    ensures
        r.0@ == placed_points(screen, crate::path_edit::flattened(points@, false)),
        r.1@ == pen_lead(screen, points@, hover_pos) + pen_knobs(screen, points@, points@.len()),
{
    let flat = flatten_path(points.as_slice(), false);
    let mut line: Vec<Pos2<S>> = Vec::new();
    let mut i: usize = 0;
    while i < flat.len()
        invariant
            i <= flat.len(),
            line.len() == i,
            forall|j: int| 0 <= j < i ==> #[trigger] line@[j] == screen.spec_place(flat@[j]),
        decreases flat.len() - i,
    {
        line.push(screen.place(flat[i]));
        i += 1;
    }
    assert(line@ =~= placed_points(screen, flat@));
    let mut marks: Vec<Mark<S>> = Vec::new();
    if let Some(h) = hover_pos {
        if points.len() > 0 {
            marks.push(
                Mark::Line {
                    from: screen.place(points[points.len() - 1].anchor),
                    to: h,
                    width: S::ratio(1, 1),
                    ink: Ink::SelectionDim,
                },
            );
        }
    }
    let ghost lead = pen_lead(screen, points@, hover_pos);
    assert(marks@ =~= lead + pen_knobs(screen, points@, 0));
    let mut k: usize = 0;
    while k < points.len()
        invariant
            k <= points.len(),
            marks@ == lead + pen_knobs(screen, points@, k as nat),
        decreases points.len() - k,
    {
        let p = points[k];
        push_pen_handle(screen, p, p.handle_in, &mut marks);
        push_pen_handle(screen, p, p.handle_out, &mut marks);
        let radius = if k == 0 {
            S::ratio(45, 10)
        } else {
            S::ratio(45, 10).times(S::ratio(7, 10))
        };
        marks.push(
            Mark::Knob {
                center: screen.place(p.anchor),
                radius,
                ink: Ink::White,
                width: S::ratio(15, 10),
                rim: Ink::Selection,
            },
        );
        k += 1;
        assert(marks@ =~= lead + pen_knobs(screen, points@, k as nat));
    }
    (line, marks)
}

} // verus!
