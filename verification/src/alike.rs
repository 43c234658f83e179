//! Whether two layers are alike in everything that can be seen of them: numbers are compared as
//! numbers, so that a number that is not the same as itself makes a layer unlike itself.
use vstd::prelude::*;

use crate::color::Color32;
use crate::fixed::Fixed;
use crate::geometry::{Pos2, Vec2};
use crate::model::{
    group_views, polygon_views, views, ColorAdjust, CornerRadii, Frame, KindView, Layer, LayerKind,
    LayerView, PathPoint, PathPolygon, PolygonView,
};
use crate::scalar::Scalar;
use crate::style::{
    GradientStop, HalftoneFill, NoiseFill, Paint, PaintView, Shadow, Style, StyleView,
};
use crate::text::{run_views, TextBlock, TextBlockView, TextFont, TextRun, TextRunView};
use crate::texture_cache::same_bytes;

verus! {

broadcast use group_views;

pub open spec fn same_pos<S: Scalar>(a: Pos2<S>, b: Pos2<S>) -> bool {
    a.x.spec_same(b.x) && a.y.spec_same(b.y)
}

pub open spec fn same_vec<S: Scalar>(a: Vec2<S>, b: Vec2<S>) -> bool {
    a.x.spec_same(b.x) && a.y.spec_same(b.y)
}

pub open spec fn same_handle<S: Scalar>(a: Option<Vec2<S>>, b: Option<Vec2<S>>) -> bool {
    match (a, b) {
        (Some(a), Some(b)) => same_vec(a, b),
        (None, None) => true,
        _ => false,
    }
}

pub open spec fn same_number<S: Scalar>(a: Option<S>, b: Option<S>) -> bool {
    match (a, b) {
        (Some(a), Some(b)) => a.spec_same(b),
        (None, None) => true,
        _ => false,
    }
}

pub open spec fn same_frame<S: Scalar>(a: Frame<S>, b: Frame<S>) -> bool {
    same_pos(a.pos, b.pos) && same_vec(a.size, b.size) && a.rotation.spec_same(b.rotation)
}

pub open spec fn same_ring<S: Scalar>(a: Seq<Pos2<S>>, b: Seq<Pos2<S>>) -> bool {
    a.len() == b.len() && forall|i: int| 0 <= i < a.len() ==> same_pos(#[trigger] a[i], b[i])
}

pub open spec fn same_point<S: Scalar>(a: PathPoint<S>, b: PathPoint<S>) -> bool {
    same_pos(a.anchor, b.anchor) && same_handle(a.handle_in, b.handle_in) && same_handle(
        a.handle_out,
        b.handle_out,
    ) && a.point_type == b.point_type && a.corner_radius.spec_same(b.corner_radius)
}

pub open spec fn same_points<S: Scalar>(a: Seq<PathPoint<S>>, b: Seq<PathPoint<S>>) -> bool {
    a.len() == b.len() && forall|i: int| 0 <= i < a.len() ==> same_point(#[trigger] a[i], b[i])
}

pub open spec fn same_polygon<S: Scalar>(a: PolygonView<S>, b: PolygonView<S>) -> bool {
    same_ring(a.exterior, b.exterior) && a.holes.len() == b.holes.len() && forall|i: int|
        0 <= i < a.holes.len() ==> same_ring(#[trigger] a.holes[i], b.holes[i])
}

pub open spec fn same_polygons<S: Scalar>(a: Seq<PolygonView<S>>, b: Seq<PolygonView<S>>) -> bool {
    a.len() == b.len() && forall|i: int| 0 <= i < a.len() ==> same_polygon(#[trigger] a[i], b[i])
}

pub open spec fn same_radii<S: Scalar>(a: CornerRadii<S>, b: CornerRadii<S>) -> bool {
    a.top_left.spec_same(b.top_left) && a.top_right.spec_same(b.top_right)
        && a.bottom_right.spec_same(b.bottom_right) && a.bottom_left.spec_same(b.bottom_left)
}

pub open spec fn same_adjust<S: Scalar>(a: ColorAdjust<S>, b: ColorAdjust<S>) -> bool {
    a.hue.spec_same(b.hue) && a.saturation.spec_same(b.saturation) && a.brightness.spec_same(
        b.brightness,
    ) && a.contrast.spec_same(b.contrast)
}

pub open spec fn same_stops<S: Scalar>(a: Seq<GradientStop<S>>, b: Seq<GradientStop<S>>) -> bool {
    a.len() == b.len() && forall|i: int|
        0 <= i < a.len() ==> (#[trigger] a[i]).offset.spec_same(b[i].offset) && a[i].color
            == b[i].color
}

pub open spec fn same_noise<S: Scalar>(a: NoiseFill<S>, b: NoiseFill<S>) -> bool {
    a.base == b.base && a.scale.spec_same(b.scale) && a.intensity.spec_same(b.intensity) && a.seed
        == b.seed
}

pub open spec fn same_dots<S: Scalar>(a: HalftoneFill<S>, b: HalftoneFill<S>) -> bool {
    a.background == b.background && a.dot == b.dot && a.scale.spec_same(b.scale)
        && a.coverage.spec_same(b.coverage)
}

pub open spec fn same_paint<S: Scalar>(a: PaintView<S>, b: PaintView<S>) -> bool {
    match (a, b) {
        (PaintView::Solid(a), PaintView::Solid(b)) => a == b,
        (
            PaintView::Gradient { kind: ak, from: af, to: at, stops: sa },
            PaintView::Gradient { kind: bk, from: bf, to: bt, stops: sb },
        ) => ak == bk && same_pos(af, bf) && same_pos(at, bt) && same_stops(sa, sb),
        (PaintView::Noise(a), PaintView::Noise(b)) => same_noise(a, b),
        (PaintView::Halftone(a), PaintView::Halftone(b)) => same_dots(a, b),
        (
            PaintView::Pattern { encoded: a, tile_width: aw },
            PaintView::Pattern { encoded: b, tile_width: bw },
        ) => a == b && aw.spec_same(bw),
        _ => false,
    }
}

pub open spec fn same_shadow<S: Scalar>(a: Shadow<S>, b: Shadow<S>) -> bool {
    a.color == b.color && same_vec(a.offset, b.offset) && a.blur.spec_same(b.blur)
        && a.spread.spec_same(b.spread)
}

pub open spec fn same_shadows<S: Scalar>(a: Seq<Shadow<S>>, b: Seq<Shadow<S>>) -> bool {
    a.len() == b.len() && forall|i: int| 0 <= i < a.len() ==> same_shadow(#[trigger] a[i], b[i])
}

pub open spec fn same_style<S: Scalar>(a: StyleView<S>, b: StyleView<S>) -> bool {
    &&& match (a.fill, b.fill) {
        (Some(a), Some(b)) => same_paint(a, b),
        (None, None) => true,
        _ => false,
    }
    &&& match (a.stroke, b.stroke) {
        (Some(a), Some(b)) => a.width.spec_same(b.width) && same_paint(a.paint, b.paint),
        (None, None) => true,
        _ => false,
    }
    &&& a.fill_opacity.spec_same(b.fill_opacity)
    &&& a.stroke_opacity.spec_same(b.stroke_opacity)
    &&& same_shadows(a.shadows, b.shadows)
    &&& same_shadows(a.inner_shadows, b.inner_shadows)
}

pub open spec fn same_run<S: Scalar>(a: TextRunView<S>, b: TextRunView<S>) -> bool {
    &&& a.len == b.len
    &&& a.style.font == b.style.font
    &&& a.style.font_size.spec_same(b.style.font_size)
    &&& a.style.color == b.style.color
    &&& a.style.bold == b.style.bold
    &&& a.style.italic == b.style.italic
    &&& a.style.underline == b.style.underline
    &&& a.style.strikethrough == b.style.strikethrough
}

pub open spec fn same_runs<S: Scalar>(a: Seq<TextRunView<S>>, b: Seq<TextRunView<S>>) -> bool {
    a.len() == b.len() && forall|i: int| 0 <= i < a.len() ==> same_run(#[trigger] a[i], b[i])
}

pub open spec fn same_text<S: Scalar>(a: TextBlockView<S>, b: TextBlockView<S>) -> bool {
    &&& a.content == b.content
    &&& a.font_size.spec_same(b.font_size)
    &&& a.font == b.font
    &&& a.align == b.align
    &&& a.vertical_align == b.vertical_align
    &&& a.resize == b.resize
    &&& same_number(a.line_height, b.line_height)
    &&& a.letter_spacing.spec_same(b.letter_spacing)
    &&& a.paragraph_spacing.spec_same(b.paragraph_spacing)
    &&& a.bold == b.bold
    &&& a.italic == b.italic
    &&& a.underline == b.underline
    &&& a.strikethrough == b.strikethrough
    &&& a.transform == b.transform
    &&& a.list == b.list
    &&& a.list_start == b.list_start
    &&& same_runs(a.runs, b.runs)
}

pub open spec fn same_kind<S: Scalar>(a: KindView<S>, b: KindView<S>) -> bool {
    match (a, b) {
        (KindView::Artboard { background: a }, KindView::Artboard { background: b }) => a == b,
        (KindView::Group, KindView::Group) => true,
        (KindView::BooleanGroup, KindView::BooleanGroup) => true,
        (
            KindView::Rectangle { corner_radius: a },
            KindView::Rectangle { corner_radius: b },
        ) => same_radii(a, b),
        (KindView::Oval, KindView::Oval) => true,
        (
            KindView::Star { points: a, inner_ratio: ar },
            KindView::Star { points: b, inner_ratio: br },
        ) => a == b && ar.spec_same(br),
        (KindView::Polygon { sides: a }, KindView::Polygon { sides: b }) => a == b,
        (KindView::Line, KindView::Line) => true,
        (
            KindView::Arrow { start_cap: a, end_cap: ae },
            KindView::Arrow { start_cap: b, end_cap: be },
        ) => a == b && ae == be,
        (KindView::Path { points: a, closed: ac }, KindView::Path { points: b, closed: bc }) =>
            same_points(a, b) && ac == bc,
        (KindView::CompoundPath { polygons: a }, KindView::CompoundPath { polygons: b }) =>
            same_polygons(a, b),
        (KindView::Text { text: a }, KindView::Text { text: b }) => same_text(a, b),
        (
            KindView::Image { encoded: a, version: av, color_adjust: aa, width: aw, height: ah },
            KindView::Image { encoded: b, version: bv, color_adjust: ba, width: bw, height: bh },
        ) => a == b && av == bv && same_adjust(aa, ba) && aw == bw && ah == bh,
        _ => false,
    }
}

/// Whether two layers are alike, and all that they hold.
pub open spec fn same_layer<S: Scalar>(a: LayerView<S>, b: LayerView<S>) -> bool
    decreases a,
{
    &&& a.id == b.id
    &&& a.name == b.name
    &&& same_frame(a.frame, b.frame)
    &&& same_kind(a.kind, b.kind)
    &&& a.visible == b.visible
    &&& a.locked == b.locked
    &&& a.is_mask == b.is_mask
    &&& a.ignore_mask == b.ignore_mask
    &&& a.bool_op == b.bool_op
    &&& a.opacity.spec_same(b.opacity)
    &&& same_style(a.style, b.style)
    &&& same_layers(a.children, b.children)
}

/// Whether two lists hold layers that are alike, in the same order.
pub open spec fn same_layers<S: Scalar>(a: Seq<LayerView<S>>, b: Seq<LayerView<S>>) -> bool
    decreases a,
{
    if a.len() != b.len() {
        false
    } else if a.len() == 0 {
        true
    } else {
        same_layer(a[0], b[0]) && same_layers(a.drop_first(), b.drop_first())
    }
}

/// A layer is like itself where every number is the same as itself, as fixed-point numbers are.
pub proof fn law_a_layer_is_like_itself(v: LayerView<Fixed>)
    ensures
        same_layer(v, v),
    decreases v,
{
    lemma_layers_are_like_themselves(v.children);
}

proof fn lemma_layers_are_like_themselves(s: Seq<LayerView<Fixed>>)
    ensures
        same_layers(s, s),
    decreases s,
{
    if s.len() > 0 {
        law_a_layer_is_like_itself(s[0]);
        lemma_layers_are_like_themselves(s.drop_first());
    }
}

fn pos_alike<S: Scalar>(a: Pos2<S>, b: Pos2<S>) -> (r: bool)
    ensures
        r == same_pos(a, b),
{
    a.x.is_same(b.x) && a.y.is_same(b.y)
}

fn vec_alike<S: Scalar>(a: Vec2<S>, b: Vec2<S>) -> (r: bool)
    ensures
        r == same_vec(a, b),
{
    a.x.is_same(b.x) && a.y.is_same(b.y)
}

fn handle_alike<S: Scalar>(a: Option<Vec2<S>>, b: Option<Vec2<S>>) -> (r: bool)
    ensures
        r == same_handle(a, b),
{
    match (a, b) {
        (Some(a), Some(b)) => vec_alike(a, b),
        (None, None) => true,
        _ => false,
    }
}

fn number_alike<S: Scalar>(a: Option<S>, b: Option<S>) -> (r: bool)
    ensures
        r == same_number(a, b),
{
    match (a, b) {
        (Some(a), Some(b)) => a.is_same(b),
        (None, None) => true,
        _ => false,
    }
}

fn color_alike(a: Option<Color32>, b: Option<Color32>) -> (r: bool)
    ensures
        r == (a == b),
{
    match (a, b) {
        (Some(a), Some(b)) => a == b,
        (None, None) => true,
        _ => false,
    }
}

fn ring_alike<S: Scalar>(a: &Vec<Pos2<S>>, b: &Vec<Pos2<S>>) -> (r: bool)
    ensures
        r == same_ring(a@, b@),
{
    if a.len() != b.len() {
        return false;
    }
    let mut i: usize = 0;
    while i < a.len()
        invariant
            a.len() == b.len(),
            i <= a.len(),
            forall|k: int| 0 <= k < i ==> same_pos(#[trigger] a@[k], b@[k]),
        decreases a.len() - i,
    {
        if !pos_alike(a[i], b[i]) {
            assert(!same_pos(a@[i as int], b@[i as int]));
            return false;
        }
        i += 1;
    }
    true
}

fn points_alike<S: Scalar>(a: &Vec<PathPoint<S>>, b: &Vec<PathPoint<S>>) -> (r: bool)
    ensures
        r == same_points(a@, b@),
{
    if a.len() != b.len() {
        return false;
    }
    let mut i: usize = 0;
    while i < a.len()
        invariant
            a.len() == b.len(),
            i <= a.len(),
            forall|k: int| 0 <= k < i ==> same_point(#[trigger] a@[k], b@[k]),
        decreases a.len() - i,
    {
        let p = a[i];
        let q = b[i];
        let alike = pos_alike(p.anchor, q.anchor) && handle_alike(p.handle_in, q.handle_in)
            && handle_alike(p.handle_out, q.handle_out) && p.point_type == q.point_type
            && p.corner_radius.is_same(q.corner_radius);
        if !alike {
            assert(!same_point(a@[i as int], b@[i as int]));
            return false;
        }
        i += 1;
    }
    true
}

fn polygon_alike<S: Scalar>(a: &PathPolygon<S>, b: &PathPolygon<S>) -> (r: bool)
    ensures
        r == same_polygon(a@, b@),
{
    if !ring_alike(&a.exterior, &b.exterior) || a.holes.len() != b.holes.len() {
        return false;
    }
    let mut i: usize = 0;
    while i < a.holes.len()
        invariant
            a.holes.len() == b.holes.len(),
            i <= a.holes.len(),
            forall|k: int| 0 <= k < i ==> same_ring(#[trigger] a@.holes[k], b@.holes[k]),
        decreases a.holes.len() - i,
    {
        assert(a@.holes[i as int] == a.holes@[i as int]@);
        assert(b@.holes[i as int] == b.holes@[i as int]@);
        if !ring_alike(&a.holes[i], &b.holes[i]) {
            return false;
        }
        i += 1;
    }
    true
}

fn polygons_alike<S: Scalar>(a: &Vec<PathPolygon<S>>, b: &Vec<PathPolygon<S>>) -> (r: bool)
    ensures
        r == same_polygons(polygon_views(a@), polygon_views(b@)),
{
    if a.len() != b.len() {
        return false;
    }
    let ghost p = polygon_views(a@);
    let ghost q = polygon_views(b@);
    let mut i: usize = 0;
    while i < a.len()
        invariant
            a.len() == b.len(),
            p == polygon_views(a@),
            q == polygon_views(b@),
            i <= a.len(),
            forall|k: int| 0 <= k < i ==> same_polygon(#[trigger] p[k], q[k]),
        decreases a.len() - i,
    {
        assert(p[i as int] == a@[i as int]@);
        assert(q[i as int] == b@[i as int]@);
        if !polygon_alike(&a[i], &b[i]) {
            return false;
        }
        i += 1;
    }
    true
}

fn stops_alike<S: Scalar>(a: &Vec<GradientStop<S>>, b: &Vec<GradientStop<S>>) -> (r: bool)
    ensures
        r == same_stops(a@, b@),
{
    if a.len() != b.len() {
        return false;
    }
    let mut i: usize = 0;
    while i < a.len()
        invariant
            a.len() == b.len(),
            i <= a.len(),
            forall|k: int|
                0 <= k < i ==> (#[trigger] a@[k]).offset.spec_same(b@[k].offset) && a@[k].color
                    == b@[k].color,
        decreases a.len() - i,
    {
        if !a[i].offset.is_same(b[i].offset) || a[i].color != b[i].color {
            assert(!(a@[i as int].offset.spec_same(b@[i as int].offset) && a@[i as int].color
                == b@[i as int].color));
            return false;
        }
        i += 1;
    }
    true
}

fn paint_alike<S: Scalar>(a: &Paint<S>, b: &Paint<S>) -> (r: bool)
    ensures
        r == same_paint(a@, b@),
{
    match (a, b) {
        (Paint::Solid(a), Paint::Solid(b)) => *a == *b,
        (Paint::Gradient(a), Paint::Gradient(b)) => a.kind == b.kind && pos_alike(a.from, b.from)
            && pos_alike(a.to, b.to) && stops_alike(&a.stops, &b.stops),
        (Paint::Noise(a), Paint::Noise(b)) => a.base == b.base && a.scale.is_same(b.scale)
            && a.intensity.is_same(b.intensity) && a.seed == b.seed,
        (Paint::Halftone(a), Paint::Halftone(b)) => a.background == b.background && a.dot == b.dot
            && a.scale.is_same(b.scale) && a.coverage.is_same(b.coverage),
        (Paint::Pattern(a), Paint::Pattern(b)) => same_bytes(&a.encoded, &b.encoded)
            && a.tile_width.is_same(b.tile_width),
        _ => false,
    }
}

fn shadows_alike<S: Scalar>(a: &Vec<Shadow<S>>, b: &Vec<Shadow<S>>) -> (r: bool)
    ensures
        r == same_shadows(a@, b@),
{
    if a.len() != b.len() {
        return false;
    }
    let mut i: usize = 0;
    while i < a.len()
        invariant
            a.len() == b.len(),
            i <= a.len(),
            forall|k: int| 0 <= k < i ==> same_shadow(#[trigger] a@[k], b@[k]),
        decreases a.len() - i,
    {
        let p = a[i];
        let q = b[i];
        let alike = p.color == q.color && vec_alike(p.offset, q.offset) && p.blur.is_same(q.blur)
            && p.spread.is_same(q.spread);
        if !alike {
            assert(!same_shadow(a@[i as int], b@[i as int]));
            return false;
        }
        i += 1;
    }
    true
}

fn style_alike<S: Scalar>(a: &Style<S>, b: &Style<S>) -> (r: bool)
    ensures
        r == same_style(a@, b@),
{
    let fill = match (&a.fill, &b.fill) {
        (Some(a), Some(b)) => paint_alike(a, b),
        (None, None) => true,
        _ => false,
    };
    let stroke = match (&a.stroke, &b.stroke) {
        (Some(a), Some(b)) => a.width.is_same(b.width) && paint_alike(&a.paint, &b.paint),
        (None, None) => true,
        _ => false,
    };
    fill && stroke && a.fill_opacity.is_same(b.fill_opacity) && a.stroke_opacity.is_same(
        b.stroke_opacity,
    ) && shadows_alike(&a.shadows, &b.shadows) && shadows_alike(
        &a.inner_shadows,
        &b.inner_shadows,
    )
}

fn font_alike(a: &TextFont, b: &TextFont) -> (r: bool)
    ensures
        r == (a@ == b@),
{
    match (a, b) {
        (TextFont::Proportional, TextFont::Proportional) => true,
        (TextFont::Monospace, TextFont::Monospace) => true,
        (TextFont::Serif, TextFont::Serif) => true,
        (TextFont::Display, TextFont::Display) => true,
        (TextFont::Handwriting, TextFont::Handwriting) => true,
        (TextFont::System(a), TextFont::System(b)) => *a == *b,
        _ => false,
    }
}

fn run_alike<S: Scalar>(a: &TextRun<S>, b: &TextRun<S>) -> (r: bool)
    ensures
        r == same_run(a@, b@),
{
    let p = &a.style;
    let q = &b.style;
    a.len == b.len && font_alike(&p.font, &q.font) && p.font_size.is_same(q.font_size)
        && color_alike(p.color, q.color) && p.bold == q.bold && p.italic == q.italic && p.underline
        == q.underline && p.strikethrough == q.strikethrough
}

fn runs_alike<S: Scalar>(a: &Vec<TextRun<S>>, b: &Vec<TextRun<S>>) -> (r: bool)
    ensures
        r == same_runs(run_views(a@), run_views(b@)),
{
    if a.len() != b.len() {
        return false;
    }
    let ghost p = run_views(a@);
    let ghost q = run_views(b@);
    let mut i: usize = 0;
    while i < a.len()
        invariant
            a.len() == b.len(),
            p == run_views(a@),
            q == run_views(b@),
            i <= a.len(),
            forall|k: int| 0 <= k < i ==> same_run(#[trigger] p[k], q[k]),
        decreases a.len() - i,
    {
        assert(p[i as int] == a@[i as int]@);
        assert(q[i as int] == b@[i as int]@);
        if !run_alike(&a[i], &b[i]) {
            return false;
        }
        i += 1;
    }
    true
}

fn text_alike<S: Scalar>(a: &TextBlock<S>, b: &TextBlock<S>) -> (r: bool)
    ensures
        r == same_text(a@, b@),
{
    a.content == b.content && a.font_size.is_same(b.font_size) && font_alike(&a.font, &b.font)
        && a.align == b.align && a.vertical_align == b.vertical_align && a.resize == b.resize
        && number_alike(a.line_height, b.line_height) && a.letter_spacing.is_same(b.letter_spacing)
        && a.paragraph_spacing.is_same(b.paragraph_spacing) && a.bold == b.bold && a.italic
        == b.italic && a.underline == b.underline && a.strikethrough == b.strikethrough
        && a.transform == b.transform && a.list == b.list && a.list_start == b.list_start
        && runs_alike(&a.runs, &b.runs)
}

fn radii_alike<S: Scalar>(a: CornerRadii<S>, b: CornerRadii<S>) -> (r: bool)
    ensures
        r == same_radii(a, b),
{
    a.top_left.is_same(b.top_left) && a.top_right.is_same(b.top_right) && a.bottom_right.is_same(
        b.bottom_right,
    ) && a.bottom_left.is_same(b.bottom_left)
}

fn adjust_alike<S: Scalar>(a: ColorAdjust<S>, b: ColorAdjust<S>) -> (r: bool)
    ensures
        r == same_adjust(a, b),
{
    a.hue.is_same(b.hue) && a.saturation.is_same(b.saturation) && a.brightness.is_same(
        b.brightness,
    ) && a.contrast.is_same(b.contrast)
}

fn kind_alike<S: Scalar>(a: &LayerKind<S>, b: &LayerKind<S>) -> (r: bool)
    ensures
        r == same_kind(a@, b@),
{
    match (a, b) {
        (
            LayerKind::Artboard { background: a, .. },
            LayerKind::Artboard { background: b, .. },
        ) => *a == *b,
        (LayerKind::Group { .. }, LayerKind::Group { .. }) => true,
        (LayerKind::BooleanGroup { .. }, LayerKind::BooleanGroup { .. }) => true,
        (
            LayerKind::Rectangle { corner_radius: a },
            LayerKind::Rectangle { corner_radius: b },
        ) => radii_alike(*a, *b),
        (LayerKind::Oval, LayerKind::Oval) => true,
        (
            LayerKind::Star { points: a, inner_ratio: ar },
            LayerKind::Star { points: b, inner_ratio: br },
        ) => *a == *b && ar.is_same(*br),
        (LayerKind::Polygon { sides: a }, LayerKind::Polygon { sides: b }) => *a == *b,
        (LayerKind::Line, LayerKind::Line) => true,
        (
            LayerKind::Arrow { start_cap: a, end_cap: ae },
            LayerKind::Arrow { start_cap: b, end_cap: be },
        ) => *a == *b && *ae == *be,
        (LayerKind::Path { points: a, closed: ac }, LayerKind::Path { points: b, closed: bc }) =>
            points_alike(a, b) && *ac == *bc,
        (LayerKind::CompoundPath { polygons: a }, LayerKind::CompoundPath { polygons: b }) =>
            polygons_alike(a, b),
        (LayerKind::Text { text: a }, LayerKind::Text { text: b }) => text_alike(a, b),
        (
            LayerKind::Image { encoded: a, version: av, color_adjust: aa, width: aw, height: ah },
            LayerKind::Image { encoded: b, version: bv, color_adjust: ba, width: bw, height: bh },
        ) => same_bytes(a, b) && *av == *bv && adjust_alike(*aa, *ba) && *aw == *bw && *ah == *bh,
        _ => false,
    }
}

/// Whether two layers are alike, and all that they hold.
pub fn layer_alike<S: Scalar>(a: &Layer<S>, b: &Layer<S>) -> (r: bool)
    ensures
        r == same_layer(a@, b@),
    decreases *a,
{
    let own = a.id == b.id && a.name == b.name && pos_alike(a.frame.pos, b.frame.pos) && vec_alike(
        a.frame.size,
        b.frame.size,
    ) && a.frame.rotation.is_same(b.frame.rotation) && kind_alike(&a.kind, &b.kind) && a.visible
        == b.visible && a.locked == b.locked && a.is_mask == b.is_mask && a.ignore_mask
        == b.ignore_mask && a.bool_op == b.bool_op && a.opacity.is_same(b.opacity) && style_alike(
        &a.style,
        &b.style,
    );
    if !own {
        return false;
    }
    match (a.children(), b.children()) {
        (Some(p), Some(q)) => {
            if p.len() != q.len() {
                return false;
            }
            let ghost s = views(p@);
            let ghost t = views(q@);
            let mut i: usize = 0;
            assert(s.skip(0) =~= s);
            assert(t.skip(0) =~= t);
            while i < p.len()
                invariant
                    p.len() == q.len(),
                    s == views(p@),
                    t == views(q@),
                    i <= p.len(),
                    decreases_to!(*a => p@),
                    s == a@.children,
                    t == b@.children,
                    same_layers(s, t) == same_layers(s.skip(i as int), t.skip(i as int)),
                decreases p.len() - i,
            {
                assert(s.skip(i as int)[0] == p@[i as int]@);
                assert(t.skip(i as int)[0] == q@[i as int]@);
                assert(s.skip(i as int).drop_first() =~= s.skip(i + 1));
                assert(t.skip(i as int).drop_first() =~= t.skip(i + 1));
                if !layer_alike(&p[i], &q[i]) {
                    return false;
                }
                i += 1;
            }
            true
        },
        (None, None) => true,
        _ => false,
    }
}

/// Whether two lists hold layers that are alike, in the same order.
pub fn layers_alike<S: Scalar>(a: &Vec<Layer<S>>, b: &Vec<Layer<S>>) -> (r: bool)
    ensures
        r == same_layers(views(a@), views(b@)),
{
    if a.len() != b.len() {
        return false;
    }
    let ghost s = views(a@);
    let ghost t = views(b@);
    let mut i: usize = 0;
    assert(s.skip(0) =~= s);
    assert(t.skip(0) =~= t);
    while i < a.len()
        invariant
            a.len() == b.len(),
            s == views(a@),
            t == views(b@),
            i <= a.len(),
            same_layers(s, t) == same_layers(s.skip(i as int), t.skip(i as int)),
        decreases a.len() - i,
    {
        assert(s.skip(i as int)[0] == a@[i as int]@);
        assert(t.skip(i as int)[0] == b@[i as int]@);
        assert(s.skip(i as int).drop_first() =~= s.skip(i + 1));
        assert(t.skip(i as int).drop_first() =~= t.skip(i + 1));
        if !layer_alike(&a[i], &b[i]) {
            return false;
        }
        i += 1;
    }
    true
}

} // verus!
