//! What a drag leaves behind when the pointer is released.
use vstd::prelude::*;

use crate::canvas::{
    edited_image, path_at, read_path, session, with_points, CanvasView, CanvasWidget, DragState,
    DragView, HandleSide, ImageEditView, Session,
};
use crate::document::{Guide, GuideOrientation, Page, PageView};
use crate::dragging::{dragged_guide, with_layer};
use crate::geometry::{Pos2, Rect, Vec2};
use crate::grouping::has_id;
use crate::history::{History, HistoryView};
use crate::hit_test::{banded, collect_marquee_hits};
use crate::image_edit::{
    doc_to_pixel, has_area, merge_mask, merged, pixel_along, rect_mask, rectangle,
};
use crate::model::{
    group_views, Frame, IdSource, KindView, LayerId, LayerKind, LayerView, PathPoint, PointType,
};
use crate::path_edit::{has_index, normalize_path_frame, normalized};
use crate::placement::{insert_layer, inserted_layer, made_by_tool, new_layer_for_tool, Tool};
use crate::scalar::Scalar;
use crate::style::copy_vec;
use crate::transform::{refit_container_to_children, refitted};

verus! {

broadcast use group_views;

/// Where the pointer was released, if it is known.
#[derive(Debug, PartialEq)]
pub struct Release<S> {
    pub mouse: Option<Pos2<S>>,
    /// Where the canvas begins.
    pub origin: Pos2<S>,
    pub canvas_rect: Rect<S>,
}

impl<S: Scalar> Clone for Release<S> {
    fn clone(&self) -> (r: Self)
        ensures
            r == *self,
    {
        *self
    }
}

impl<S: Scalar> Copy for Release<S> {

}

/// The point of the page where the drag ended: where it began, if the pointer is lost.
pub open spec fn released_at<S: Scalar>(
    c: CanvasView<S>,
    release: Release<S>,
    start_doc: Pos2<S>,
) -> Pos2<S> {
    c.to_doc(
        release.origin,
        match release.mouse {
            Some(p) => p,
            None => c.to_screen(release.origin, start_doc),
        },
    )
}

/// The frame of a drag from one point to another.
pub open spec fn drawn_frame<S: Scalar>(a: Pos2<S>, b: Pos2<S>) -> Frame<S> {
    Frame { pos: a, size: b.spec_from(a), rotation: S::spec_ratio(0, 1) }
}

/// Whether a drag is long enough to make a shape; a text needs no length.
pub open spec fn makes_shape<S: Scalar>(tool: Tool, frame: Frame<S>) -> bool {
    let two = S::spec_ratio(2, 1);
    two.spec_lt(frame.size.x.spec_magnitude()) || two.spec_lt(frame.size.y.spec_magnitude()) || tool
        == Tool::Text
}

/// The session after a new shape was drawn.
pub open spec fn shape_dropped<S: Scalar>(
    s: Session<S>,
    start_doc: Pos2<S>,
    end_doc: Pos2<S>,
) -> Session<S> {
    let frame = drawn_frame(start_doc, end_doc);
    match made_by_tool(s.next as u64, s.tool, frame) {
        Some(v) => if makes_shape(s.tool, frame) {
            Session {
                canvas: CanvasView { insert_hint_parent: None, ..s.canvas },
                history: s.history.with_layers(
                    inserted_layer(
                        s.history.layers(),
                        v,
                        start_doc,
                        s.canvas.insert_hint_parent,
                    ),
                ),
                tool: Tool::Select,
                selection: seq![s.next as u64],
                next: s.next + 1,
            }
        } else {
            s
        },
        None => s,
    }
}

/// The ids with each of `hits` turned over in turn.
pub open spec fn turned_over(base: Seq<LayerId>, hits: Seq<LayerId>) -> Seq<LayerId>
    decreases hits.len(),
{
    if hits.len() == 0 {
        base
    } else {
        let t = turned_over(base, hits.drop_last());
        let id = hits.last();
        if t.contains(id) {
            t.remove(t.index_of_first(id)->0)
        } else {
            t.push(id)
        }
    }
}

/// The members of `base`, then those of `hits` that are not among them yet.
pub open spec fn joined<A>(base: Seq<A>, hits: Seq<A>) -> Seq<A>
    decreases hits.len(),
{
    if hits.len() == 0 {
        base
    } else {
        let t = joined(base, hits.drop_last());
        if t.contains(hits.last()) {
            t
        } else {
            t.push(hits.last())
        }
    }
}

/// The selection after a rubber band took `hits`.
pub open spec fn band_selected(
    base: Seq<LayerId>,
    hits: Seq<LayerId>,
    invert: bool,
    additive: bool,
) -> Seq<LayerId> {
    if invert {
        turned_over(base, hits)
    } else if additive {
        joined(base, hits)
    } else {
        hits
    }
}

/// Which of the first `k` points of a path are in a rubber band.
pub open spec fn points_in<S: Scalar>(
    points: Seq<PathPoint<S>>,
    pos: Pos2<S>,
    outer: Vec2<S>,
    band: Rect<S>,
    k: nat,
) -> Seq<usize>
    decreases k,
{
    if k == 0 {
        Seq::empty()
    } else {
        let rest = points_in(points, pos, outer, band, (k - 1) as nat);
        if band.spec_contains(
            points[k - 1].anchor.spec_plus(pos.spec_to_vec2()).spec_plus(outer),
        ) {
            rest.push((k - 1) as usize)
        } else {
            rest
        }
    }
}

/// The points selected after a rubber band for points; as they were where the path is gone.
pub open spec fn band_points<S: Scalar>(
    c: CanvasView<S>,
    s: Seq<LayerView<S>>,
    layer_id: LayerId,
    band: Rect<S>,
    additive: bool,
    base: Seq<usize>,
) -> Seq<usize> {
    match path_at(s, layer_id) {
        Some(p) => {
            let hits = points_in(p.points, p.pos, p.outer, band, p.points.len());
            if additive {
                joined(base, hits)
            } else {
                hits
            }
        },
        None => c.selected_points,
    }
}

/// The page after a guide was dropped: a new one, or one moved; away from the canvas it is gone.
pub open spec fn guide_dropped<S: Scalar>(
    c: CanvasView<S>,
    page: PageView<S>,
    release: Release<S>,
    moved: Option<int>,
    orientation: GuideOrientation,
) -> PageView<S> {
    let mouse = match release.mouse {
        Some(p) => p,
        None => release.origin,
    };
    let inside = release.canvas_rect.spec_contains(mouse);
    let v = dragged_guide(c, page, orientation, c.to_doc(release.origin, mouse));
    match moved {
        None => if inside {
            PageView { guides: page.guides.push(Guide { orientation, pos: v }), ..page }
        } else {
            page
        },
        Some(k) => if !(0 <= k < page.guides.len()) {
            page
        } else if inside {
            PageView {
                guides: page.guides.update(k, Guide { pos: v, ..page.guides[k] }),
                ..page
            }
        } else {
            PageView { guides: page.guides.remove(k), ..page }
        },
    }
}

/// Whether a handle is too short on the screen to be meant.
pub open spec fn is_stub<S: Scalar>(h: Vec2<S>, zoom: S) -> bool {
    h.spec_length().spec_times(zoom).spec_lt(S::spec_ratio(2, 1))
}

/// The points drawn with the pen once the last one is set: a corner, if its handle is a stub.
pub open spec fn pen_point_set<S: Scalar>(points: Seq<PathPoint<S>>, i: int, zoom: S) -> Seq<
    PathPoint<S>,
> {
    if 0 <= i < points.len() && (points[i].handle_out matches Some(h) ==> is_stub(h, zoom)) {
        points.update(
            i,
            PathPoint {
                handle_in: None,
                handle_out: None,
                point_type: PointType::Straight,
                ..points[i]
            },
        )
    } else {
        points
    }
}

/// A path layer after one of its handles was dropped: a stub is removed.
pub open spec fn handle_dropped<S: Scalar>(v: LayerView<S>, i: int, side: HandleSide, zoom: S) -> LayerView<
    S,
> {
    match v.kind {
        KindView::Path { points, closed } => if 0 <= i < points.len() {
            let p = points[i];
            match side {
                HandleSide::In => if p.handle_in matches Some(h) && is_stub(h, zoom) {
                    with_points(v, points.update(i, PathPoint { handle_in: None, ..p }), closed)
                } else {
                    v
                },
                HandleSide::Out => if p.handle_out matches Some(h) && is_stub(h, zoom) {
                    with_points(v, points.update(i, PathPoint { handle_out: None, ..p }), closed)
                } else {
                    v
                },
            }
        } else {
            v
        },
        _ => v,
    }
}

/// The layers after the named containers were fitted to what they hold, one by one.
pub open spec fn all_refitted<S: Scalar>(s: Seq<LayerView<S>>, ids: Seq<LayerId>) -> Seq<LayerView<S>>
    decreases ids.len(),
{
    if ids.len() == 0 {
        s
    } else {
        let t = all_refitted(s, ids.drop_last());
        match crate::tree::find(t, ids.last()) {
            Some(v) => crate::tree::replace(t, ids.last(), refitted(v)),
            None => t,
        }
    }
}

/// Whether a drag is so short that it is a click.
pub open spec fn is_click<S: Scalar>(a: Pos2<S>, b: Pos2<S>) -> bool {
    let two = S::spec_ratio(2, 1);
    b.x.spec_minus(a.x).spec_magnitude().spec_le(two) && b.y.spec_minus(
        a.y,
    ).spec_magnitude().spec_le(two)
}

/// The pixel of an image under a point of the page.
pub open spec fn pixel_under<S: Scalar>(p: Pos2<S>, b: Rect<S>, width: u32, height: u32) -> Option<
    (int, int),
> {
    if has_area(b, width, height) {
        let rel = p.spec_from(b.min);
        Some(
            (
                pixel_along(rel.x, b.spec_width(), width),
                pixel_along(rel.y, b.spec_height(), height),
            ),
        )
    } else {
        None
    }
}

/// The pixels of an image under a rubber band; none where they share no area.
pub open spec fn pixels_under<S: Scalar>(band: Rect<S>, b: Rect<S>, width: u32, height: u32) -> Option<
    Seq<bool>,
> {
    let zero = S::spec_ratio(0, 1);
    let clip = band.spec_intersect(b);
    let thousandth = S::spec_ratio(1, 1000);
    let inset = Pos2 {
        x: clip.max.x.spec_minus(thousandth),
        y: clip.max.y.spec_minus(thousandth),
    };
    if zero.spec_lt(clip.spec_width()) && zero.spec_lt(clip.spec_height()) {
        match (pixel_under(clip.min, b, width, height), pixel_under(inset, b, width, height)) {
            (Some(p), Some(q)) => Some(
                rectangle(width, height, p.0 as u32, p.1 as u32, q.0 as u32, q.1 as u32),
            ),
            _ => None,
        }
    } else {
        None
    }
}

/// The pixel from which a click in the image that is edited selects like colours; none where the
/// drag was no click.
pub open spec fn wand_pixel<S: Scalar>(
    c: CanvasView<S>,
    s: Seq<LayerView<S>>,
    release: Release<S>,
) -> Option<(int, int)> {
    match (c.drag, edited_image(c, s)) {
        (DragView::ImageEditDrag { start_doc, .. }, Some((id, b, width, height))) => if is_click(
            start_doc,
            released_at(c, release, start_doc),
        ) {
            pixel_under(start_doc, b, width, height)
        } else {
            None
        },
        _ => None,
    }
}

/// The mask after a drag in the image that is edited; `wand` is what a click selects.
pub open spec fn mask_dropped<S: Scalar>(
    c: CanvasView<S>,
    s: Seq<LayerView<S>>,
    release: Release<S>,
    start_doc: Pos2<S>,
    subtract: bool,
    base_mask: Seq<bool>,
    wand: Option<Seq<bool>>,
) -> Seq<bool> {
    let end_doc = released_at(c, release, start_doc);
    match edited_image(c, s) {
        Some((id, b, width, height)) => {
            let new = if is_click(start_doc, end_doc) {
                if pixel_under(start_doc, b, width, height) is Some {
                    wand
                } else {
                    None
                }
            } else {
                pixels_under(Rect::spec_from_two_pos(start_doc, end_doc), b, width, height)
            };
            match new {
                Some(m) => merged(base_mask, m, subtract),
                None => base_mask,
            }
        },
        None => base_mask,
    }
}

/// The canvas after a drag of points, of the pen or in an image was let go.
#[verifier::opaque]
pub open spec fn canvas_let_go<S: Scalar>(
    c: CanvasView<S>,
    drag: DragView<S>,
    layers: Seq<LayerView<S>>,
    release: Release<S>,
    wand: Option<Seq<bool>>,
) -> CanvasView<S> {
    match drag {
        DragView::MarqueePoints { layer_id, start_doc, additive, base_points } => CanvasView {
            selected_points: band_points(
                c,
                layers,
                layer_id,
                Rect::spec_from_two_pos(start_doc, released_at(c, release, start_doc)),
                additive,
                base_points,
            ),
            ..c
        },
        DragView::DrawingPenHandle { point_index } => CanvasView {
            pen: match c.pen {
                Some(points) => Some(pen_point_set(points, point_index as int, c.zoom)),
                None => None,
            },
            ..c
        },
        DragView::ImageEditDrag { start_doc, subtract, base_mask } => CanvasView {
            image_edit: match c.image_edit {
                Some(edit) => Some(
                    ImageEditView {
                        mask: mask_dropped(
                            c,
                            layers,
                            release,
                            start_doc,
                            subtract,
                            base_mask,
                            wand,
                        ),
                        overlay_stale: true,
                        ..edit
                    },
                ),
                None => None,
            },
            ..c
        },
        _ => c,
    }
}

/// The history after a drag of a guide, of a path or of the handles of a selection was let go.
#[verifier::opaque]
pub open spec fn history_let_go<S: Scalar>(
    c: CanvasView<S>,
    drag: DragView<S>,
    h: HistoryView<S>,
    selection: Seq<LayerId>,
    release: Release<S>,
) -> HistoryView<S> {
    let layers = h.layers();
    let page = h.current.page();
    match drag {
        DragView::CreatingGuide { orientation } => {
            let mouse = match release.mouse {
                Some(p) => p,
                None => release.origin,
            };
            if release.canvas_rect.spec_contains(mouse) {
                h.after_snapshot().with_page(guide_dropped(c, page, release, None, orientation))
            } else {
                h
            }
        },
        DragView::MovingGuide { index, orientation } => h.after_snapshot().with_page(
            guide_dropped(c, page, release, Some(index as int), orientation),
        ),
        DragView::EditingPathAnchor { layer_id, .. } => h.with_layers(
            with_layer(layers, layer_id, |v: LayerView<S>| normalized(v)),
        ),
        DragView::EditingPathHandle { layer_id, point_index, side, .. } => h.with_layers(
            with_layer(
                layers,
                layer_id,
                |v: LayerView<S>| handle_dropped(v, point_index as int, side, c.zoom),
            ),
        ),
        DragView::ResizingGroup { .. } | DragView::Rotating { .. } => h.with_layers(
            all_refitted(layers, selection),
        ),
        _ => h,
    }
}

/// The session after the pointer was released: nothing is dragged any more.
pub open spec fn dropped<S: Scalar>(
    s: Session<S>,
    release: Release<S>,
    wand: Option<Seq<bool>>,
) -> Session<S> {
    let c = CanvasView { drag: DragView::Idle, ..s.canvas };
    let layers = s.history.layers();
    match s.canvas.drag {
        DragView::CreatingShape { start_doc } => shape_dropped(
            Session { canvas: c, ..s },
            start_doc,
            released_at(c, release, start_doc),
        ),
        DragView::Marquee {
            start_doc,
            additive,
            base_selection,
            contained_only,
            ignore_groups,
            invert,
        } => Session {
            canvas: c,
            selection: band_selected(
                base_selection,
                banded(
                    layers,
                    Vec2::spec_zero(),
                    Rect::spec_from_two_pos(start_doc, released_at(c, release, start_doc)),
                    contained_only,
                    ignore_groups,
                ),
                invert,
                additive,
            ),
            ..s
        },
        _ => Session {
            canvas: canvas_let_go(c, s.canvas.drag, layers, release, wand),
            history: history_let_go(c, s.canvas.drag, s.history, s.selection, release),
            ..s
        },
    }
}

/// Whatever was dragged, once the pointer is released nothing is dragged any more.
pub proof fn law_a_drop_ends_the_drag<S: Scalar>(
    s: Session<S>,
    release: Release<S>,
    wand: Option<Seq<bool>>,
)
    ensures
        dropped(s, release, wand).canvas.drag == DragView::<S>::Idle,
{
    reveal(canvas_let_go);
}

/// A rubber band that turns layers over, drawn twice round the same layers, leaves a selection
/// without repetitions with the members it had.
pub proof fn law_turning_over_twice_restores(base: Seq<LayerId>, hits: Seq<LayerId>)
    requires
        base.no_duplicates(),
        hits.no_duplicates(),
    ensures
        forall|id: LayerId|
            #[trigger] turned_over(turned_over(base, hits), hits).contains(id) <==> base.contains(
                id,
            ),
{
    lemma_turned_over(base, hits);
    lemma_turned_over(turned_over(base, hits), hits);
}

/// Turning over takes out what was there and puts in what was not.
proof fn lemma_turned_over(base: Seq<LayerId>, hits: Seq<LayerId>)
    requires
        base.no_duplicates(),
        hits.no_duplicates(),
    ensures
        turned_over(base, hits).no_duplicates(),
        forall|id: LayerId| #[trigger]
            turned_over(base, hits).contains(id) <==> (base.contains(id) != hits.contains(id)),
    decreases hits.len(),
{
    if hits.len() > 0 {
        let front = hits.drop_last();
        let last = hits.last();
        lemma_turned_over(base, front);
        let t = turned_over(base, front);
        let r = turned_over(base, hits);
        assert(front.push(last) =~= hits);
        assert(!front.contains(last)) by {
            if front.contains(last) {
                let j = choose|j: int| 0 <= j < front.len() && front[j] == last;
                assert(hits[j] == hits[hits.len() - 1]);
            }
        }
        t.index_of_first_ensures(last);
        if t.contains(last) {
            let k = t.index_of_first(last)->0;
            assert(t[k] == last);
            assert forall|id: LayerId| #[trigger] r.contains(id) <==> (base.contains(id)
                != hits.contains(id)) by {
                if r.contains(id) {
                    let j = choose|j: int| 0 <= j < r.len() && r[j] == id;
                    let o = if j < k {
                        j
                    } else {
                        j + 1
                    };
                    assert(t[o] == id);
                    assert(t.contains(id));
                    assert(id != last);
                    lemma_in_front(hits, id);
                } else if t.contains(id) && id != last {
                    let o = choose|o: int| 0 <= o < t.len() && t[o] == id;
                    let j = if o < k {
                        o
                    } else {
                        o - 1
                    };
                    assert(r[j] == id);
                } else {
                    lemma_in_front(hits, id);
                }
            }
        } else {
            assert(r == t.push(last));
            assert forall|id: LayerId| #[trigger] r.contains(id) <==> (base.contains(id)
                != hits.contains(id)) by {
                lemma_in_front(hits, id);
                lemma_in_front(r, id);
                assert(r.drop_last() =~= t);
            }
        }
    } else {
        assert(turned_over(base, hits) == base);
    }
}

/// A member of a list is its last or in front of it.
proof fn lemma_in_front(s: Seq<LayerId>, id: LayerId)
    requires
        s.len() > 0,
    ensures
        s.contains(id) <==> (s.drop_last().contains(id) || s.last() == id),
{
    if s.contains(id) {
        let j = choose|j: int| 0 <= j < s.len() && s[j] == id;
        if j < s.len() - 1 {
            assert(s.drop_last()[j] == id);
        }
    }
    if s.drop_last().contains(id) {
        let j = choose|j: int| 0 <= j < s.drop_last().len() && s.drop_last()[j] == id;
        assert(s[j] == id);
    }
    if s.last() == id {
        assert(s[s.len() - 1] == id);
    }
}

/// The ids with each of `hits` turned over in turn.
pub fn turn_over(base: &Vec<LayerId>, hits: &Vec<LayerId>) -> (r: Vec<LayerId>)
    ensures
        r@ == turned_over(base@, hits@),
{
    let mut r = copy_vec(base);
    let mut i: usize = 0;
    assert(hits@.take(0) =~= Seq::empty());
    while i < hits.len()
        invariant
            i <= hits.len(),
            r@ == turned_over(base@, hits@.take(i as int)),
        decreases hits.len() - i,
    {
        assert(hits@.take(i + 1).drop_last() =~= hits@.take(i as int));
        assert(hits@.take(i + 1).last() == hits@[i as int]);
        let id = hits[i];
        let mut k: usize = 0;
        while k < r.len() && r[k] != id
            invariant
                k <= r.len(),
                forall|j: int| 0 <= j < k ==> #[trigger] r@[j] != id,
            decreases r.len() - k,
        {
            k += 1;
        }
        let ghost before = r@;
        if k < r.len() {
            proof {
                assert(before[k as int] == id);
                before.index_of_first_ensures(id);
                let f = before.index_of_first(id)->0;
                assert(f == k) by {
                    if f < k {
                        assert(before[f] != id);
                    }
                }
            }
            r.remove(k);
        } else {
            assert(!before.contains(id));
            r.push(id);
        }
        i += 1;
    }
    assert(hits@.take(i as int) =~= hits@);
    r
}

/// The members of `base`, then those of `hits` that are not among them yet.
pub fn join_ids(base: &Vec<LayerId>, hits: &Vec<LayerId>) -> (r: Vec<LayerId>)
    ensures
        r@ == joined(base@, hits@),
{
    let mut r = copy_vec(base);
    let mut i: usize = 0;
    assert(hits@.take(0) =~= Seq::empty());
    while i < hits.len()
        invariant
            i <= hits.len(),
            r@ == joined(base@, hits@.take(i as int)),
        decreases hits.len() - i,
    {
        assert(hits@.take(i + 1).drop_last() =~= hits@.take(i as int));
        if !has_id(&r, hits[i]) {
            r.push(hits[i]);
        }
        i += 1;
    }
    assert(hits@.take(i as int) =~= hits@);
    r
}

/// The members of `base`, then those of `hits` that are not among them yet.
fn join_points(base: &Vec<usize>, hits: &Vec<usize>) -> (r: Vec<usize>)
    ensures
        r@ == joined(base@, hits@),
{
    let mut r = copy_vec(base);
    let mut i: usize = 0;
    assert(hits@.take(0) =~= Seq::empty());
    while i < hits.len()
        invariant
            i <= hits.len(),
            r@ == joined(base@, hits@.take(i as int)),
        decreases hits.len() - i,
    {
        assert(hits@.take(i + 1).drop_last() =~= hits@.take(i as int));
        if !has_index(&r, hits[i]) {
            r.push(hits[i]);
        }
        i += 1;
    }
    assert(hits@.take(i as int) =~= hits@);
    r
}

/// The selection after a rubber band took `hits`.
fn select_band(base: &Vec<LayerId>, hits: Vec<LayerId>, invert: bool, additive: bool) -> (r: Vec<
    LayerId,
>)
    ensures
        r@ == band_selected(base@, hits@, invert, additive),
{
    if invert {
        turn_over(base, &hits)
    } else if additive {
        join_ids(base, &hits)
    } else {
        hits
    }
}

/// Which points of a path are in a rubber band.
fn find_points_in<S: Scalar>(
    points: &Vec<PathPoint<S>>,
    pos: Pos2<S>,
    outer: Vec2<S>,
    band: Rect<S>,
) -> (r: Vec<usize>)
    ensures
        r@ == points_in(points@, pos, outer, band, points@.len()),
{
    let mut r: Vec<usize> = Vec::new();
    let mut i: usize = 0;
    while i < points.len()
        invariant
            i <= points.len(),
            r@ == points_in(points@, pos, outer, band, i as nat),
        decreases points.len() - i,
    {
        if band.contains(points[i].anchor.plus(pos.to_vec2()).plus(outer)) {
            r.push(i);
        }
        i += 1;
    }
    r
}

/// Whether a handle is too short on the screen to be meant.
fn stub<S: Scalar>(h: Option<Vec2<S>>, zoom: S, when_none: bool) -> (r: bool)
    ensures
        r == match h {
            Some(v) => is_stub(v, zoom),
            None => when_none,
        },
{
    match h {
        Some(v) => v.length().times(zoom).is_lt(S::ratio(2, 1)),
        None => when_none,
    }
}

/// Removes the stub of a handle.
fn drop_handle<S: Scalar>(page: &mut Page<S>, id: LayerId, i: usize, side: HandleSide, zoom: S)
    ensures
        final(page)@ == old(page)@.with_layers(
            with_layer(
                old(page)@.layers,
                id,
                |v: LayerView<S>| handle_dropped(v, i as int, side, zoom),
            ),
        ),
{
    if let Some(layer) = page.find_mut(id) {
        if let LayerKind::Path { points, .. } = &mut layer.kind {
            if i < points.len() {
                let mut p = points[i];
                match side {
                    HandleSide::In => {
                        if stub(p.handle_in, zoom, false) {
                            p.handle_in = None;
                            points.set(i, p);
                        }
                    },
                    HandleSide::Out => {
                        if stub(p.handle_out, zoom, false) {
                            p.handle_out = None;
                            points.set(i, p);
                        }
                    },
                }
            }
        }
    }
}

/// Makes the frame of a path the box of its anchors.
fn drop_anchors<S: Scalar>(page: &mut Page<S>, id: LayerId)
    ensures
        final(page)@ == old(page)@.with_layers(
            with_layer(old(page)@.layers, id, |v: LayerView<S>| normalized(v)),
        ),
{
    normalize_path_frame(page, id);
}

/// Fits the named containers to what they hold.
pub fn refit_all<S: Scalar>(page: &mut Page<S>, ids: &Vec<LayerId>)
    ensures
        final(page)@ == old(page)@.with_layers(all_refitted(old(page)@.layers, ids@)),
{
    let ghost s = page@.layers;
    let mut i: usize = 0;
    assert(ids@.take(0) =~= Seq::empty());
    while i < ids.len()
        invariant
            i <= ids.len(),
            page@ == old(page)@.with_layers(all_refitted(s, ids@.take(i as int))),
        decreases ids.len() - i,
    {
        assert(ids@.take(i + 1).drop_last() =~= ids@.take(i as int));
        assert(ids@.take(i + 1).last() == ids@[i as int]);
        refit_container_to_children(page, ids[i]);
        i += 1;
    }
    assert(ids@.take(i as int) =~= ids@);
}

/// Whether a drag is so short that it is a click.
fn click_length<S: Scalar>(a: Pos2<S>, b: Pos2<S>) -> (r: bool)
    ensures
        r == is_click(a, b),
{
    let two = S::ratio(2, 1);
    b.x.minus(a.x).magnitude().is_le(two) && b.y.minus(a.y).magnitude().is_le(two)
}

/// The pixels of an image under a rubber band.
fn select_pixels<S: Scalar>(band: Rect<S>, b: Rect<S>, width: u32, height: u32) -> (r: Option<
    Vec<bool>,
>)
    requires
        width * height <= usize::MAX,
    ensures
        match pixels_under(band, b, width, height) {
            Some(m) => r matches Some(mask) && mask@ == m,
            None => r is None,
        },
{
    let zero = S::ratio(0, 1);
    let clip = band.intersect(b);
    if zero.is_lt(clip.width()) && zero.is_lt(clip.height()) {
        let thousandth = S::ratio(1, 1000);
        let inset = Pos2 { x: clip.max.x.minus(thousandth), y: clip.max.y.minus(thousandth) };
        match (doc_to_pixel(clip.min, b, width, height), doc_to_pixel(inset, b, width, height)) {
            (Some((x0, y0)), Some((x1, y1))) => Some(rect_mask(width, height, x0, y0, x1, y1)),
            _ => None,
        }
    } else {
        None
    }
}

impl<S: Scalar> CanvasWidget<S> {
    /// The point of the page where the drag ended.
    fn released_at(&self, release: Release<S>, start_doc: Pos2<S>) -> (r: Pos2<S>)
        ensures
            r == released_at(self@, release, start_doc),
    {
        let mouse = match release.mouse {
            Some(p) => p,
            None => self.to_screen(release.origin, start_doc),
        };
        self.to_doc(release.origin, mouse)
    }

    /// Puts a newly drawn shape on the page.
    fn drop_shape(
        &mut self,
        start_doc: Pos2<S>,
        end_doc: Pos2<S>,
        history: &mut History<S>,
        tool: &mut Tool,
        selection: &mut Vec<LayerId>,
        source: &mut IdSource,
    )
        requires
            old(history)@.current.wf(),
            old(source).next < u64::MAX,
        ensures
            session(
                *final(self),
                *final(history),
                *final(tool),
                *final(selection),
                *final(source),
            ) == shape_dropped(
                session(*old(self), *old(history), *old(tool), *old(selection), *old(source)),
                start_doc,
                end_doc,
            ),
    {
        let frame = Frame::from_two_points(start_doc, end_doc);
        let two = S::ratio(2, 1);
        if two.is_lt(frame.size.x.magnitude()) || two.is_lt(frame.size.y.magnitude()) || *tool
            == Tool::Text {
            if let Some(layer) = new_layer_for_tool(source.next, *tool, frame) {
                let id = source.fresh();
                let hint = self.insert_hint_parent;
                self.insert_hint_parent = None;
                insert_layer(history.page_mut(), layer, start_doc, hint);
                *selection = vec![id];
                assert(selection@ =~= seq![id]);
                *tool = Tool::Select;
            }
        }
    }

    /// Puts a dropped guide on the page, moves it, or removes it.
    fn drop_guide(
        &self,
        page: &mut Page<S>,
        release: Release<S>,
        moved: Option<usize>,
        orientation: GuideOrientation,
    )
        ensures
            final(page)@ == guide_dropped(
                self@,
                old(page)@,
                release,
                match moved {
                    Some(k) => Some(k as int),
                    None => None,
                },
                orientation,
            ),
    {
        let mouse = match release.mouse {
            Some(p) => p,
            None => release.origin,
        };
        let inside = release.canvas_rect.contains(mouse);
        let pos = self.guide_at(page, orientation, self.to_doc(release.origin, mouse));
        match moved {
            None => {
                if inside {
                    page.guides.push(Guide { orientation, pos });
                }
            },
            Some(k) => {
                if k < page.guides.len() {
                    if inside {
                        let mut g = page.guides[k];
                        g.pos = pos;
                        page.guides.set(k, g);
                    } else {
                        page.guides.remove(k);
                    }
                }
            },
        }
    }

    /// The pixel from which a click in the image that is edited selects like colours.
    pub fn wand_seed(&self, release: Release<S>, history: &History<S>) -> (r: Option<(u32, u32)>)
        requires
            history@.current.wf(),
        ensures
            match wand_pixel(self@, history@.layers(), release) {
                Some(p) => r matches Some(q) && q.0 == p.0 && q.1 == p.1,
                None => r is None,
            },
    {
        match (&self.drag, self.image_edit_doc_bounds(history)) {
            (DragState::ImageEditDrag { start_doc, .. }, Some((_, b, width, height))) => {
                if click_length(*start_doc, self.released_at(release, *start_doc)) {
                    doc_to_pixel(*start_doc, b, width, height)
                } else {
                    None
                }
            },
            _ => None,
        }
    }

    /// The mask after a drag in the image that is edited.
    fn drop_mask(
        &self,
        history: &History<S>,
        release: Release<S>,
        start_doc: Pos2<S>,
        subtract: bool,
        base_mask: Vec<bool>,
        wand: &Option<Vec<bool>>,
    ) -> (r: Vec<bool>)
        requires
            history@.current.wf(),
            self@.image_edit matches Some(edit) ==> edit.width * edit.height <= usize::MAX,
        ensures
            r@ == mask_dropped(
                self@,
                history@.layers(),
                release,
                start_doc,
                subtract,
                base_mask@,
                mask_view(*wand),
            ),
    {
        let mut mask = base_mask;
        let end_doc = self.released_at(release, start_doc);
        if let Some((_, b, width, height)) = self.image_edit_doc_bounds(history) {
            if click_length(start_doc, end_doc) {
                if doc_to_pixel(start_doc, b, width, height).is_some() {
                    if let Some(w) = wand {
                        merge_mask(&mut mask, w, subtract);
                    }
                }
            } else {
                let band = Rect::from_two_pos(start_doc, end_doc);
                if let Some(m) = select_pixels(band, b, width, height) {
                    merge_mask(&mut mask, &m, subtract);
                }
            }
        }
        mask
    }

    /// Ends a drag that changes the canvas alone.
    fn let_go_of_canvas(
        &mut self,
        drag: DragState<S>,
        release: Release<S>,
        wand: &Option<Vec<bool>>,
        history: &History<S>,
    )
        requires
            history@.current.wf(),
            old(self)@.image_edit matches Some(edit) ==> edit.width * edit.height <= usize::MAX,
        ensures
            final(self)@ == canvas_let_go(
                old(self)@,
                drag@,
                history@.layers(),
                release,
                mask_view(*wand),
            ),
    {
        reveal(canvas_let_go);
        match drag {
            DragState::MarqueePoints { layer_id, start_doc, additive, base_points } => {
                let band = Rect::from_two_pos(start_doc, self.released_at(release, start_doc));
                if let Some((pos, outer, points, _)) = read_path(history, layer_id) {
                    let hits = find_points_in(&points, pos, outer, band);
                    self.selected_points = if additive {
                        join_points(&base_points, &hits)
                    } else {
                        hits
                    };
                }
            },
            DragState::DrawingPenHandle { point_index } => {
                let zoom = self.zoom;
                if let Some(points) = &mut self.pen {
                    if point_index < points.len() && stub(
                        points[point_index].handle_out,
                        zoom,
                        true,
                    ) {
                        let mut p = points[point_index];
                        p.handle_in = None;
                        p.handle_out = None;
                        p.point_type = PointType::Straight;
                        points.set(point_index, p);
                    }
                }
            },
            DragState::ImageEditDrag { start_doc, subtract, base_mask } => {
                let mask = self.drop_mask(history, release, start_doc, subtract, base_mask, wand);
                if let Some(edit) = &mut self.image_edit {
                    edit.mask = mask;
                    edit.mark_dirty();
                }
            },
            _ => {},
        }
    }

    /// Ends a drag that changes the document alone.
    fn let_go_of_history(
        &self,
        drag: &DragState<S>,
        release: Release<S>,
        history: &mut History<S>,
        selection: &Vec<LayerId>,
    )
        requires
            old(history)@.current.wf(),
        ensures
            final(history)@ == history_let_go(
                self@,
                drag@,
                old(history)@,
                selection@,
                release,
            ),
    {
        reveal(history_let_go);
        match drag {
            DragState::CreatingGuide { orientation } => {
                let mouse = match release.mouse {
                    Some(p) => p,
                    None => release.origin,
                };
                if release.canvas_rect.contains(mouse) {
                    history.snapshot();
                    self.drop_guide(history.page_mut(), release, None, *orientation);
                }
            },
            DragState::MovingGuide { index, orientation } => {
                history.snapshot();
                self.drop_guide(history.page_mut(), release, Some(*index), *orientation);
            },
            DragState::EditingPathAnchor { layer_id, .. } => {
                drop_anchors(history.page_mut(), *layer_id);
            },
            DragState::EditingPathHandle { layer_id, point_index, side, .. } => {
                drop_handle(history.page_mut(), *layer_id, *point_index, *side, self.zoom);
            },
            DragState::ResizingGroup { .. } | DragState::Rotating { .. } => {
                refit_all(history.page_mut(), selection);
            },
            _ => {},
        }
    }

    /// Ends the drag where the pointer was released; `wand` is the mask of what a click in the
    /// image that is edited selects.
    pub fn drag_stopped(
        &mut self,
        release: Release<S>,
        wand: &Option<Vec<bool>>,
        history: &mut History<S>,
        tool: &mut Tool,
        selection: &mut Vec<LayerId>,
        source: &mut IdSource,
    )
        requires
            old(history)@.current.wf(),
            old(source).next < u64::MAX,
            old(self)@.image_edit matches Some(edit) ==> edit.width * edit.height <= usize::MAX,
        ensures
            session(
                *final(self),
                *final(history),
                *final(tool),
                *final(selection),
                *final(source),
            ) == dropped(
                session(*old(self), *old(history), *old(tool), *old(selection), *old(source)),
                release,
                mask_view(*wand),
            ),
    {
        let mut drag = DragState::Idle;
        std::mem::swap(&mut self.drag, &mut drag);
        assert(self@ == (CanvasView { drag: DragView::Idle, ..old(self)@ }));
        match drag {
            DragState::CreatingShape { start_doc } => {
                let end_doc = self.released_at(release, start_doc);
                self.drop_shape(start_doc, end_doc, history, tool, selection, source);
            },
            DragState::Marquee {
                start_doc,
                additive,
                base_selection,
                contained_only,
                ignore_groups,
                invert,
            } => {
                let band = Rect::from_two_pos(start_doc, self.released_at(release, start_doc));
                let mut hits: Vec<LayerId> = Vec::new();
                collect_marquee_hits(
                    &history.page().layers,
                    Vec2::zero(),
                    band,
                    contained_only,
                    ignore_groups,
                    &mut hits,
                );
                assert(hits@ =~= banded(
                    history@.layers(),
                    Vec2::spec_zero(),
                    band,
                    contained_only,
                    ignore_groups,
                ));
                *selection = select_band(&base_selection, hits, invert, additive);
            },
            DragState::MarqueePoints { .. }
            | DragState::DrawingPenHandle { .. }
            | DragState::ImageEditDrag { .. } => {
                proof {
                    assert(history_let_go(self@, drag@, history@, selection@, release) == history@)
                        by {
                        reveal(history_let_go);
                    }
                }
                self.let_go_of_canvas(drag, release, wand, history);
            },
            _ => {
                proof {
                    assert(canvas_let_go(
                        self@,
                        drag@,
                        history@.layers(),
                        release,
                        mask_view(*wand),
                    ) == self@) by {
                        reveal(canvas_let_go);
                    }
                }
                self.let_go_of_history(&drag, release, history, selection);
            },
        }
    }
}

/// A mask that may be missing, over a sequence.
pub open spec fn mask_view(mask: Option<Vec<bool>>) -> Option<Seq<bool>> {
    match mask {
        Some(m) => Some(m@),
        None => None,
    }
}

} // verus!
