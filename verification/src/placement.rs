//! Making new layers with the drawing tools, and where they go.
use vstd::prelude::*;

use crate::alignment::DistributeAxis;
use crate::color::Color32;
use crate::document::Page;
use crate::geometry::{Pos2, Rect, Vec2};
use crate::model::{
    group_views, views, ArrowCap, CornerRadii, Frame, KindView, Layer, LayerId, LayerKind, LayerView,
};
use crate::order::{sort_stable, stable_sorted, SortKey};
use crate::scalar::Scalar;
use crate::style::{Paint, PaintView, Style, StyleView};
use crate::text::{TextBlock, TextBlockView, TextResize};

verus! {

broadcast use group_views;

#[derive(Clone, Copy, Debug, PartialEq, Eq, Structural)]
pub enum Tool {
    Select,
    Pan,
    Artboard,
    Rectangle,
    Oval,
    Line,
    Arrow,
    Star,
    Polygon,
    Text,
    Pen,
    Scissors,
}

/// The size of a text layer made by a click, before it is fitted to its content.
pub open spec fn default_text_size<S: Scalar>() -> Vec2<S> {
    Vec2 { x: S::spec_ratio(140, 1), y: S::spec_ratio(34, 1) }
}

/// Whether a drag went far enough to give a text box its size.
pub open spec fn is_drag<S: Scalar>(b: Rect<S>) -> bool {
    S::spec_ratio(2, 1).spec_lt(b.spec_width().spec_magnitude()) || S::spec_ratio(2, 1).spec_lt(
        b.spec_height().spec_magnitude(),
    )
}

/// The text of a new text layer.
pub open spec fn new_text<S: Scalar>(resize: TextResize) -> TextBlockView<S> {
    TextBlockView {
        content: "Text"@,
        font_size: S::spec_ratio(24, 1),
        font: crate::text::TextFontView::Proportional,
        align: crate::text::TextAlign::Left,
        vertical_align: crate::text::VerticalAlign::Top,
        resize,
        line_height: None,
        letter_spacing: S::spec_ratio(0, 1),
        paragraph_spacing: S::spec_ratio(0, 1),
        bold: false,
        italic: false,
        underline: false,
        strikethrough: false,
        transform: crate::text::TextTransform::AsTyped,
        list: crate::text::ListType::Plain,
        list_start: 1,
        runs: Seq::empty(),
    }
}

/// The standard look with a black fill.
pub open spec fn black_fill<S: Scalar>() -> StyleView<S> {
    StyleView {
        fill: Some(PaintView::Solid(Color32 { r: 0, g: 0, b: 0, a: 255 })),
        ..Style::<S>::spec_default()
    }
}

/// What dragging a tool across `frame` makes; none for the tools that make nothing by one drag.
///
/// Lines and arrows keep the direction of the drag. A text drag makes a box of fixed size, a click
/// a text that sizes itself.
pub open spec fn made_by_tool<S: Scalar>(id: LayerId, tool: Tool, frame: Frame<S>) -> Option<
    LayerView<S>,
> {
    let boxed = Frame::spec_from_bounds(frame.spec_bounds());
    let none = Seq::<LayerView<S>>::empty();
    match tool {
        Tool::Rectangle => Some(
            Layer::spec_new(
                id,
                "Rectangle"@,
                boxed,
                KindView::Rectangle {
                    corner_radius: CornerRadii::spec_uniform(S::spec_ratio(0, 1)),
                },
                none,
            ),
        ),
        Tool::Oval => Some(Layer::spec_new(id, "Oval"@, boxed, KindView::Oval, none)),
        Tool::Line => Some(Layer::spec_new(id, "Line"@, frame, KindView::Line, none)),
        Tool::Arrow => Some(
            Layer::spec_new(
                id,
                "Arrow"@,
                frame,
                KindView::Arrow { start_cap: ArrowCap::Bare, end_cap: ArrowCap::Triangle },
                none,
            ),
        ),
        Tool::Star => Some(
            Layer::spec_new(
                id,
                "Star"@,
                boxed,
                KindView::Star { points: 5, inner_ratio: S::spec_ratio(1, 2) },
                none,
            ),
        ),
        Tool::Polygon => Some(
            Layer::spec_new(id, "Polygon"@, boxed, KindView::Polygon { sides: 6 }, none),
        ),
        Tool::Artboard => Some(
            Layer::spec_new(
                id,
                "Artboard"@,
                boxed,
                KindView::Artboard { background: Color32 { r: 255, g: 255, b: 255, a: 255 } },
                none,
            ),
        ),
        Tool::Text => {
            let b = frame.spec_bounds();
            let size = if is_drag(b) {
                b.spec_size()
            } else {
                default_text_size()
            };
            let resize = if is_drag(b) {
                TextResize::Fixed
            } else {
                TextResize::Auto
            };
            Some(
                LayerView {
                    style: black_fill(),
                    ..Layer::spec_new(
                        id,
                        "Text"@,
                        Frame { pos: b.min, size, rotation: S::spec_ratio(0, 1) },
                        KindView::Text { text: new_text(resize) },
                        none,
                    )
                },
            )
        },
        Tool::Select | Tool::Pan | Tool::Pen | Tool::Scissors => None,
    }
}

/// An artboard with a white background and nothing on it.
pub fn new_artboard<S: Scalar>(id: LayerId, name: &str, frame: Frame<S>) -> (r: Layer<S>)
    ensures
        r@ == Layer::<S>::spec_new(
            id,
            name@,
            frame,
            KindView::Artboard { background: Color32 { r: 255, g: 255, b: 255, a: 255 } },
            Seq::empty(),
        ),
{
    let kind = LayerKind::Artboard {
        children: Vec::new(),
        background: Color32 { r: 255, g: 255, b: 255, a: 255 },
    };
    assert(views(kind.inside()) =~= Seq::empty());
    Layer::new(id, name, frame, kind)
}

/// A layer that holds nothing.
fn leaf<S: Scalar>(id: LayerId, name: &str, frame: Frame<S>, kind: LayerKind<S>) -> (r: Layer<S>)
    requires
        kind.inside() == Seq::<Layer<S>>::empty(),
    ensures
        r@ == Layer::<S>::spec_new(id, name@, frame, kind@, Seq::empty()),
{
    assert(views(kind.inside()) =~= Seq::empty());
    Layer::new(id, name, frame, kind)
}

/// What dragging a tool across `frame` makes.
pub fn new_layer_for_tool<S: Scalar>(id: LayerId, tool: Tool, frame: Frame<S>) -> (r: Option<
    Layer<S>,
>)
    ensures
        match made_by_tool(id, tool, frame) {
            Some(v) => r matches Some(layer) && layer@ == v,
            None => r is None,
        },
{
    let boxed = Frame::from_bounds(frame.bounds());
    match tool {
        Tool::Rectangle => Some(
            leaf(
                id,
                "Rectangle",
                boxed,
                LayerKind::Rectangle { corner_radius: CornerRadii::uniform(S::ratio(0, 1)) },
            ),
        ),
        Tool::Oval => Some(leaf(id, "Oval", boxed, LayerKind::Oval)),
        Tool::Line => Some(leaf(id, "Line", frame, LayerKind::Line)),
        Tool::Arrow => Some(
            leaf(
                id,
                "Arrow",
                frame,
                LayerKind::Arrow { start_cap: ArrowCap::Bare, end_cap: ArrowCap::Triangle },
            ),
        ),
        Tool::Star => Some(
            leaf(
                id,
                "Star",
                boxed,
                LayerKind::Star { points: 5, inner_ratio: S::ratio(1, 2) },
            ),
        ),
        Tool::Polygon => Some(leaf(id, "Polygon", boxed, LayerKind::Polygon { sides: 6 })),
        Tool::Artboard => Some(new_artboard(id, "Artboard", boxed)),
        Tool::Text => {
            let b = frame.bounds();
            let two = S::ratio(2, 1);
            let dragged = two.is_lt(b.width().magnitude()) || two.is_lt(b.height().magnitude());
            let (size, resize) = if dragged {
                (b.size(), TextResize::Fixed)
            } else {
                (Vec2 { x: S::ratio(140, 1), y: S::ratio(34, 1) }, TextResize::Auto)
            };
            let mut text = TextBlock::plain("Text".to_owned(), S::ratio(24, 1));
            text.resize = resize;
            assert(text@ =~= new_text::<S>(resize));
            let mut layer = leaf(
                id,
                "Text",
                Frame { pos: b.min, size, rotation: S::ratio(0, 1) },
                LayerKind::Text { text },
            );
            layer.style.fill = Some(Paint::Solid(Color32 { r: 0, g: 0, b: 0, a: 255 }));
            Some(layer)
        },
        Tool::Select | Tool::Pan | Tool::Pen | Tool::Scissors => None,
    }
}

/// The index of the first artboard from `k` on whose box has the point.
pub open spec fn artboard_at<S: Scalar>(s: Seq<LayerView<S>>, p: Pos2<S>, k: int) -> Option<int>
    decreases s.len() - k,
{
    if k < 0 || k >= s.len() {
        None
    } else if s[k].kind is Artboard && s[k].frame.spec_bounds().spec_contains(p) {
        Some(k)
    } else {
        artboard_at(s, p, k + 1)
    }
}

/// The position on the page of the layer with the given id, if it can hold others.
pub open spec fn container_pos<S: Scalar>(s: Seq<LayerView<S>>, id: LayerId) -> Option<Vec2<S>> {
    match (crate::document::offset_of(s, id, Vec2::spec_zero()), crate::tree::find(s, id)) {
        (Some(outer), Some(v)) => if v.is_container() {
            Some(v.frame.pos.spec_to_vec2().spec_plus(outer))
        } else {
            None
        },
        _ => None,
    }
}

/// `v` moved back, in front of what `into` already holds.
pub open spec fn dropped_into<S: Scalar>(into: LayerView<S>, v: LayerView<S>, by: Vec2<S>) -> LayerView<
    S,
> {
    into.with_children(into.children.push(v.with_frame(v.frame.spec_moved_back(by))))
}

/// The layers with `v`, which is placed on the page, put into `hint` if that can hold layers, or
/// into the first artboard of the page under `start`, or on the page itself; at the same place
/// either way.
pub open spec fn inserted_layer<S: Scalar>(
    s: Seq<LayerView<S>>,
    v: LayerView<S>,
    start: Pos2<S>,
    hint: Option<LayerId>,
) -> Seq<LayerView<S>> {
    match hint {
        Some(h) => match container_pos(s, h) {
            Some(pos) => crate::tree::replace(
                s,
                h,
                dropped_into(crate::tree::find(s, h)->0, v, pos),
            ),
            None => inserted_at(s, v, start),
        },
        None => inserted_at(s, v, start),
    }
}

pub open spec fn inserted_at<S: Scalar>(
    s: Seq<LayerView<S>>,
    v: LayerView<S>,
    start: Pos2<S>,
) -> Seq<LayerView<S>> {
    match artboard_at(s, start, 0) {
        Some(k) => s.update(k, dropped_into(s[k], v, s[k].frame.pos.spec_to_vec2())),
        None => s.push(v),
    }
}

/// Puts a new layer on the page: into `hint` if that can hold layers, or into the first artboard
/// of the page under `start_doc`, or on the page itself.
pub fn insert_layer<S: Scalar>(
    page: &mut Page<S>,
    layer: Layer<S>,
    start_doc: Pos2<S>,
    hint: Option<LayerId>,
)
    ensures
        final(page)@ == old(page)@.with_layers(
            inserted_layer(old(page)@.layers, layer@, start_doc, hint),
        ),
{
    let ghost v = layer@;
    let mut made = layer;
    if let Some(h) = hint {
        let at = match (page.absolute_offset(h), page.find(h)) {
            (Some(outer), Some(into)) => if into.children().is_some() {
                Some(into.frame.pos.to_vec2().plus(outer))
            } else {
                None
            },
            _ => None,
        };
        if let Some(pos) = at {
            if let Some(parent) = page.find_mut(h) {
                if let Some(children) = parent.children_mut() {
                    made.frame = made.frame.moved_back(pos);
                    children.push(made);
                }
            }
            return;
        }
    }
    let ghost s = page@.layers;
    let mut k: usize = 0;
    while k < page.layers.len()
        invariant
            k <= page.layers.len(),
            s == views(page.layers@),
            artboard_at(s, start_doc, 0) == artboard_at(s, start_doc, k as int),
            page@ == old(page)@,
            s == page@.layers,
            made@ == v,
            v == layer@,
            hint matches Some(h) ==> container_pos(s, h) is None,
        decreases page.layers.len() - k,
    {
        assert(s[k as int] == page.layers@[k as int]@);
        let is_artboard = match &page.layers[k].kind {
            LayerKind::Artboard { .. } => true,
            _ => false,
        };
        if is_artboard && page.layers[k].frame.bounds().contains(start_doc) {
            assert(s[k as int].is_container());
            made.frame = made.frame.moved_back(page.layers[k].frame.pos.to_vec2());
            let parent = &mut page.layers[k];
            match parent.children_mut() {
                Some(children) => {
                    children.push(made);
                },
                None => {},
            }
            assert(views(page.layers@) == s.update(
                k as int,
                dropped_into(s[k as int], v, s[k as int].frame.pos.spec_to_vec2()),
            ));
            return;
        }
        k += 1;
    }
    page.layers.push(made);
}

/// The named layers that exist, with the boxes around their turned frames on the page.
pub open spec fn boxes_of<S: Scalar>(s: Seq<LayerView<S>>, ids: Seq<LayerId>) -> Seq<
    (LayerId, Rect<S>),
>
    decreases ids.len(),
{
    if ids.len() == 0 {
        Seq::empty()
    } else {
        let rest = boxes_of(s, ids.drop_last());
        match (
            crate::tree::find(s, ids.last()),
            crate::document::offset_of(s, ids.last(), Vec2::spec_zero()),
        ) {
            (Some(v), Some(outer)) => rest.push(
                (ids.last(), v.frame.spec_rotated_bounds().spec_translate(outer)),
            ),
            _ => rest,
        }
    }
}

pub open spec fn box_keys<S: Scalar>(items: Seq<(LayerId, Rect<S>)>, axis: DistributeAxis) -> Seq<
    SortKey<S>,
> {
    Seq::new(
        items.len(),
        |i: int| SortKey { first: crate::alignment::low(items[i].1, axis), next: None::<S> },
    )
}

/// All indices below `n`.
pub open spec fn iota(n: nat) -> Seq<usize> {
    Seq::new(n, |i: int| i as usize)
}

/// The named layers that exist, sorted along an axis.
pub open spec fn ordered_boxes<S: Scalar>(
    s: Seq<LayerView<S>>,
    ids: Seq<LayerId>,
    axis: DistributeAxis,
) -> Seq<(LayerId, Rect<S>)> {
    let items = boxes_of(s, ids);
    let order = stable_sorted(iota(items.len()), box_keys(items, axis));
    Seq::new(order.len(), |i: int| items[order[i] as int])
}

/// The named layers that exist, sorted along an axis by the boxes around their turned frames.
pub fn distribution_order<S: Scalar>(page: &Page<S>, ids: &[LayerId], axis: DistributeAxis) -> (r:
    Vec<(LayerId, Rect<S>)>)
    ensures
        r@ == ordered_boxes(page@.layers, ids@, axis),
{
    let ghost s = page@.layers;
    let mut items: Vec<(LayerId, Rect<S>)> = Vec::new();
    let mut k: usize = 0;
    assert(ids@.take(0) =~= Seq::empty());
    while k < ids.len()
        invariant
            k <= ids.len(),
            s == page@.layers,
            items@ == boxes_of(s, ids@.take(k as int)),
        decreases ids.len() - k,
    {
        assert(ids@.take(k + 1).drop_last() =~= ids@.take(k as int));
        let id = ids[k];
        if let (Some(layer), Some(outer)) = (page.find(id), page.absolute_offset(id)) {
            items.push((id, layer.frame.rotated_bounds().translate(outer)));
        }
        k += 1;
    }
    assert(ids@.take(k as int) =~= ids@);
    let mut keys: Vec<SortKey<S>> = Vec::new();
    let mut all: Vec<usize> = Vec::new();
    let mut i: usize = 0;
    while i < items.len()
        invariant
            i <= items.len(),
            keys.len() == i,
            all.len() == i,
            forall|j: int| 0 <= j < i ==> #[trigger] keys@[j] == box_keys(items@, axis)[j],
            forall|j: int| 0 <= j < i ==> #[trigger] all@[j] == j,
        decreases items.len() - i,
    {
        let b = items[i].1;
        let first = match axis {
            DistributeAxis::Horizontal => b.min.x,
            DistributeAxis::Vertical => b.min.y,
        };
        keys.push(SortKey { first, next: None });
        all.push(i);
        i += 1;
    }
    assert(keys@ =~= box_keys(items@, axis));
    assert(all@ =~= iota(items@.len()));
    let order = sort_stable(&all, &keys);
    let mut r: Vec<(LayerId, Rect<S>)> = Vec::new();
    let mut m: usize = 0;
    while m < order.len()
        invariant
            m <= order.len(),
            r.len() == m,
            forall|j: int| 0 <= j < order@.len() ==> #[trigger] order@[j] < items@.len(),
            forall|j: int| 0 <= j < m ==> #[trigger] r@[j] == items@[order@[j] as int],
        decreases order.len() - m,
    {
        r.push(items[order[m]]);
        m += 1;
    }
    assert(r@ =~= ordered_boxes(s, ids@, axis));
    r
}

/// The middle of the gap between two boxes along an axis.
pub open spec fn gap_middle<S: Scalar>(a: Rect<S>, b: Rect<S>, axis: DistributeAxis) -> Pos2<S> {
    let two = S::spec_ratio(2, 1);
    match axis {
        DistributeAxis::Horizontal => Pos2 {
            x: a.max.x.spec_plus(b.min.x).spec_over(two),
            y: a.spec_center().y.spec_plus(b.spec_center().y).spec_over(two),
        },
        DistributeAxis::Vertical => Pos2 {
            x: a.spec_center().x.spec_plus(b.spec_center().x).spec_over(two),
            y: a.max.y.spec_plus(b.min.y).spec_over(two),
        },
    }
}

/// The middle of the gap between each two neighbours: one fewer than there are items.
pub fn gap_handle_positions<S: Scalar>(items: &Vec<(LayerId, Rect<S>)>, axis: DistributeAxis) -> (r:
    Vec<Pos2<S>>)
    ensures
        r@.len() == (if items@.len() == 0 {
            0
        } else {
            items@.len() - 1
        }),
        forall|i: int|
            0 <= i < r@.len() ==> #[trigger] r@[i] == gap_middle(
                items@[i].1,
                items@[i + 1].1,
                axis,
            ),
{
    let mut r: Vec<Pos2<S>> = Vec::new();
    let two = S::ratio(2, 1);
    let mut i: usize = 1;
    while i < items.len()
        invariant
            1 <= i,
            items.len() > 0 ==> i <= items.len(),
            items.len() == 0 ==> i == 1,
            r.len() == i - 1,
            two == S::spec_ratio(2, 1),
            forall|j: int|
                0 <= j < r@.len() ==> #[trigger] r@[j] == gap_middle(
                    items@[j].1,
                    items@[j + 1].1,
                    axis,
                ),
        decreases items.len() - i,
    {
        let a = items[i - 1].1;
        let b = items[i].1;
        r.push(
            match axis {
                DistributeAxis::Horizontal => Pos2 {
                    x: a.max.x.plus(b.min.x).over(two),
                    y: a.center().y.plus(b.center().y).over(two),
                },
                DistributeAxis::Vertical => Pos2 {
                    x: a.center().x.plus(b.center().x).over(two),
                    y: a.max.y.plus(b.min.y).over(two),
                },
            },
        );
        i += 1;
    }
    r
}

} // verus!
