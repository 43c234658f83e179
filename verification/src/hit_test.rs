//! What is under the pointer or inside a rubber band.
use vstd::prelude::*;

use crate::document::Page;
use crate::geometry::{Pos2, Rect, Vec2};
use crate::grouping::has_id;
use crate::model::{group_views, views, Layer, LayerId, LayerKind, LayerView};
use crate::scalar::Scalar;
use crate::tree::find_layer;

verus! {

broadcast use group_views;

/// The index of the mask that clips the layer at `i`: the first mask in front of it, where neither
/// the layer nor one in between is a mask itself or ignores masks.
pub open spec fn mask_from<S>(s: Seq<LayerView<S>>, k: int) -> Option<int>
    decreases s.len() - k,
{
    if k < 0 || k >= s.len() - 1 || s[k].is_mask || s[k].ignore_mask {
        None
    } else if s[k + 1].is_mask {
        Some(k + 1)
    } else {
        mask_from(s, k + 1)
    }
}

/// The index of the mask that clips the layer at `i`.
pub fn mask_of<S: Scalar>(layers: &Vec<Layer<S>>, i: usize) -> (r: Option<usize>)
    requires
        i < layers.len(),
    ensures
        match mask_from(views(layers@), i as int) {
            Some(m) => r == Some(m as usize) && i < m < layers.len(),
            None => r is None,
        },
{
    let ghost s = views(layers@);
    let mut k: usize = i;
    while k < layers.len() - 1
        invariant
            i <= k < layers.len(),
            s == views(layers@),
            mask_from(s, i as int) == mask_from(s, k as int),
        decreases layers.len() - k,
    {
        assert(s[k as int] == layers@[k as int]@);
        assert(s[k + 1] == layers@[k + 1]@);
        if layers[k].is_mask || layers[k].ignore_mask {
            return None;
        }
        if layers[k + 1].is_mask {
            return Some(k + 1);
        }
        k += 1;
    }
    None
}

/// What a hit test cannot see from frames alone, for the point it asks about.
pub struct Coverage {
    /// The boolean groups whose combined shape has the point inside.
    pub solid: Vec<LayerId>,
    /// The masks that let the point through.
    pub revealing: Vec<LayerId>,
}

/// Whether the point is on the layer itself, masks aside.
pub open spec fn on_layer<S: Scalar>(v: LayerView<S>, pos: Pos2<S>, solid: Seq<LayerId>) -> bool {
    if v.kind is BooleanGroup {
        solid.contains(v.id)
    } else {
        let b = v.frame.spec_bounds();
        b.spec_contains(pos.spec_rotated(b.spec_center(), v.frame.rotation.spec_negated()))
    }
}

/// Whether the layer at `i` is clipped away at the point.
pub open spec fn clipped<S>(s: Seq<LayerView<S>>, i: int, revealing: Seq<LayerId>) -> bool {
    mask_from(s, i) matches Some(m) && !revealing.contains(s[m].id)
}

/// The frontmost layer of the first `k` under the point: one that is shown and not locked, and in
/// a group or an artboard the innermost such layer. A boolean group counts as one.
pub open spec fn hit<S: Scalar>(
    s: Seq<LayerView<S>>,
    k: nat,
    pos: Pos2<S>,
    solid: Seq<LayerId>,
    revealing: Seq<LayerId>,
) -> Option<LayerId>
    decreases s, k,
{
    if k == 0 || k > s.len() {
        None
    } else {
        let v = s[k - 1];
        if !v.visible || v.locked || !on_layer(v, pos, solid) || clipped(s, k - 1, revealing) {
            hit(s, (k - 1) as nat, pos, solid, revealing)
        } else if v.kind is BooleanGroup {
            Some(v.id)
        } else {
            match hit(
                v.children,
                v.children.len(),
                pos.spec_minus(v.frame.pos.spec_to_vec2()),
                solid,
                revealing,
            ) {
                Some(inner) => Some(inner),
                None => Some(v.id),
            }
        }
    }
}

/// The frontmost layer of a list under the point.
pub fn hit_test_layers<S: Scalar>(layers: &Vec<Layer<S>>, pos: Pos2<S>, coverage: &Coverage) -> (r:
    Option<LayerId>)
    ensures
        r == hit(
            views(layers@),
            layers@.len(),
            pos,
            coverage.solid@,
            coverage.revealing@,
        ),
    decreases layers@,
{
    let ghost s = views(layers@);
    let mut k: usize = layers.len();
    while k > 0
        invariant
            k <= layers.len(),
            s == views(layers@),
            hit(s, s.len(), pos, coverage.solid@, coverage.revealing@) == hit(
                s,
                k as nat,
                pos,
                coverage.solid@,
                coverage.revealing@,
            ),
        decreases k,
    {
        let i: usize = k - 1;
        let layer = &layers[i];
        assert(s[i as int] == layer@);
        k = i;
        if !layer.visible || layer.locked {
            continue ;
        }
        let boolean = match &layer.kind {
            LayerKind::BooleanGroup { .. } => true,
            _ => false,
        };
        let on = if boolean {
            has_id(&coverage.solid, layer.id)
        } else {
            let b = layer.frame.bounds();
            b.contains(pos.rotated(b.center(), layer.frame.rotation.negated()))
        };
        if !on {
            continue ;
        }
        if let Some(m) = mask_of(layers, i) {
            assert(s[m as int] == layers@[m as int]@);
            if !has_id(&coverage.revealing, layers[m].id) {
                continue ;
            }
        }
        if boolean {
            return Some(layer.id);
        }
        match layer.children() {
            Some(children) => {
                let inner = hit_test_layers(children, pos.minus(layer.frame.pos.to_vec2()), coverage);
                if inner.is_some() {
                    return inner;
                }
            },
            None => {
                assert(hit(
                    layer@.children,
                    0,
                    pos.spec_minus(layer@.frame.pos.spec_to_vec2()),
                    coverage.solid@,
                    coverage.revealing@,
                ) is None);
            },
        }
        return Some(layer.id);
    }
    None
}

/// The frontmost layer of a page under the point.
pub fn hit_test<S: Scalar>(page: &Page<S>, doc_pos: Pos2<S>, coverage: &Coverage) -> (r: Option<
    LayerId,
>)
    ensures
        r == hit(
            page@.layers,
            page@.layers.len(),
            doc_pos,
            coverage.solid@,
            coverage.revealing@,
        ),
{
    hit_test_layers(&page.layers, doc_pos, coverage)
}

/// A layer that a hit test needs to know the coverage of, and the point in the space of its parent.
#[derive(Debug, PartialEq)]
pub struct CoverageQuery<S> {
    pub id: LayerId,
    pub pos: Pos2<S>,
}

/// Every boolean group and every mask at or under the layers of a list, in document order, with
/// the point as they see it.
pub open spec fn queries<S: Scalar>(s: Seq<LayerView<S>>, pos: Pos2<S>) -> Seq<CoverageQuery<S>>
    decreases s,
{
    if s.len() == 0 {
        Seq::empty()
    } else {
        let v = s.last();
        let own = if v.is_mask || v.kind is BooleanGroup {
            seq![CoverageQuery { id: v.id, pos }]
        } else {
            Seq::empty()
        };
        let inside = if v.kind is BooleanGroup {
            Seq::empty()
        } else {
            queries(v.children, pos.spec_minus(v.frame.pos.spec_to_vec2()))
        };
        queries(s.drop_last(), pos) + own + inside
    }
}

/// What a hit test at `pos` needs to know, after what `out` already holds.
pub fn coverage_queries<S: Scalar>(
    layers: &Vec<Layer<S>>,
    pos: Pos2<S>,
    out: &mut Vec<CoverageQuery<S>>,
)
    ensures
        final(out)@ == old(out)@ + queries(views(layers@), pos),
    decreases layers@,
{
    let ghost s = views(layers@);
    let ghost start = out@;
    let mut i: usize = 0;
    assert(s.take(0) =~= Seq::empty());
    assert(out@ =~= start + queries(s.take(0), pos));
    while i < layers.len()
        invariant
            i <= layers.len(),
            s == views(layers@),
            out@ == start + queries(s.take(i as int), pos),
        decreases layers.len() - i,
    {
        let layer = &layers[i];
        let ghost done = out@;
        assert(s.take(i + 1).drop_last() =~= s.take(i as int));
        assert(s.take(i + 1).last() == layer@);
        let boolean = match &layer.kind {
            LayerKind::BooleanGroup { .. } => true,
            _ => false,
        };
        if layer.is_mask || boolean {
            out.push(CoverageQuery { id: layer.id, pos });
        }
        let inner = pos.minus(layer.frame.pos.to_vec2());
        if !boolean {
            match layer.children() {
                Some(children) => {
                    coverage_queries(children, inner, out);
                },
                None => {
                    assert(queries(layer@.children, inner) =~= Seq::empty());
                },
            }
        }
        i += 1;
        assert(out@ =~= start + queries(s.take(i as int), pos));
    }
    assert(s.take(i as int) =~= s);
}

/// Every layer under the point, from front to back, by the boxes around their turned frames; a
/// layer comes before what it holds.
pub open spec fn stacked<S: Scalar>(s: Seq<LayerView<S>>, offset: Vec2<S>, pos: Pos2<S>) -> Seq<
    LayerId,
>
    decreases s,
{
    if s.len() == 0 {
        Seq::empty()
    } else {
        let v = s.last();
        let rest = stacked(s.drop_last(), offset, pos);
        if !v.visible || v.locked {
            rest
        } else {
            let own = if v.frame.spec_rotated_bounds().spec_translate(offset).spec_contains(pos) {
                seq![v.id]
            } else {
                Seq::empty()
            };
            own + stacked(
                v.children,
                offset.spec_plus(v.frame.pos.spec_to_vec2()),
                pos,
            ) + rest
        }
    }
}

/// Every layer under the point, from front to back, after what `out` already holds.
pub fn layers_at_point<S: Scalar>(
    layers: &Vec<Layer<S>>,
    offset: Vec2<S>,
    doc_pos: Pos2<S>,
    out: &mut Vec<LayerId>,
)
    ensures
        final(out)@ == old(out)@ + stacked(views(layers@), offset, doc_pos),
    decreases layers@,
{
    let ghost s = views(layers@);
    let ghost start = out@;
    let mut k: usize = layers.len();
    assert(s.take(s.len() as int) =~= s);
    while k > 0
        invariant
            k <= layers.len(),
            s == views(layers@),
            start + stacked(s, offset, doc_pos) == out@ + stacked(
                s.take(k as int),
                offset,
                doc_pos,
            ),
        decreases k,
    {
        let i: usize = k - 1;
        let layer = &layers[i];
        let ghost before = out@;
        let ghost here = s.take(k as int);
        assert(here.drop_last() =~= s.take(i as int));
        assert(here.last() == layer@);
        if layer.visible && !layer.locked {
            if layer.frame.rotated_bounds().translate(offset).contains(doc_pos) {
                out.push(layer.id);
            }
            let inner = offset.plus(layer.frame.pos.to_vec2());
            match layer.children() {
                Some(children) => {
                    layers_at_point(children, inner, doc_pos, out);
                },
                None => {
                    assert(stacked(layer@.children, inner, doc_pos) =~= Seq::empty());
                },
            }
            assert(out@ + stacked(s.take(i as int), offset, doc_pos) =~= before + stacked(
                here,
                offset,
                doc_pos,
            ));
        }
        k = i;
    }
    assert(s.take(0) =~= Seq::empty());
    assert(out@ =~= start + stacked(s, offset, doc_pos));
}

/// What a rubber band takes: layers that meet it, or lie inside it; with `ignore_groups` the
/// leaves in place of the containers.
pub open spec fn banded<S: Scalar>(
    s: Seq<LayerView<S>>,
    offset: Vec2<S>,
    marquee: Rect<S>,
    contained_only: bool,
    ignore_groups: bool,
) -> Seq<LayerId>
    decreases s,
{
    if s.len() == 0 {
        Seq::empty()
    } else {
        let v = s.last();
        let rest = banded(s.drop_last(), offset, marquee, contained_only, ignore_groups);
        let b = v.frame.spec_rotated_bounds().spec_translate(offset);
        if !v.visible || v.locked {
            rest
        } else if ignore_groups && v.is_container() {
            rest + banded(
                v.children,
                offset.spec_plus(v.frame.pos.spec_to_vec2()),
                marquee,
                contained_only,
                ignore_groups,
            )
        } else if (if contained_only {
            marquee.spec_contains_rect(b)
        } else {
            marquee.spec_intersects(b)
        }) {
            rest.push(v.id)
        } else {
            rest
        }
    }
}

/// What a rubber band takes, after what `out` already holds.
pub fn collect_marquee_hits<S: Scalar>(
    layers: &Vec<Layer<S>>,
    offset: Vec2<S>,
    marquee: Rect<S>,
    contained_only: bool,
    ignore_groups: bool,
    out: &mut Vec<LayerId>,
)
    ensures
        final(out)@ == old(out)@ + banded(
            views(layers@),
            offset,
            marquee,
            contained_only,
            ignore_groups,
        ),
    decreases layers@,
{
    let ghost s = views(layers@);
    let ghost start = out@;
    let mut i: usize = 0;
    assert(s.take(0) =~= Seq::empty());
    assert(out@ =~= start + banded(s.take(0), offset, marquee, contained_only, ignore_groups));
    while i < layers.len()
        invariant
            i <= layers.len(),
            s == views(layers@),
            out@ == start + banded(
                s.take(i as int),
                offset,
                marquee,
                contained_only,
                ignore_groups,
            ),
        decreases layers.len() - i,
    {
        let layer = &layers[i];
        assert(s.take(i + 1).drop_last() =~= s.take(i as int));
        assert(s.take(i + 1).last() == layer@);
        if layer.visible && !layer.locked {
            match (ignore_groups, layer.children()) {
                (true, Some(children)) => {
                    let inner = offset.plus(layer.frame.pos.to_vec2());
                    collect_marquee_hits(
                        children,
                        inner,
                        marquee,
                        contained_only,
                        ignore_groups,
                        out,
                    );
                },
                _ => {
                    let b = layer.frame.rotated_bounds().translate(offset);
                    let taken = if contained_only {
                        marquee.contains_rect(b)
                    } else {
                        marquee.intersects(b)
                    };
                    if taken {
                        out.push(layer.id);
                    }
                },
            }
        }
        i += 1;
        assert(out@ =~= start + banded(
            s.take(i as int),
            offset,
            marquee,
            contained_only,
            ignore_groups,
        ));
    }
    assert(s.take(i as int) =~= s);
}

/// Whether a layer is inside one of the selected layers.
pub open spec fn inside_selection<S>(
    s: Seq<LayerView<S>>,
    selection: Seq<LayerId>,
    id: LayerId,
) -> bool {
    exists|k: int|
        0 <= k < selection.len() && #[trigger] selection[k] != id && (crate::tree::find(
            s,
            selection[k],
        ) matches Some(v) && crate::tree::find(v.children, id) is Some)
}

/// Whether a layer is inside one of the selected layers.
pub fn hit_is_within_selection<S: Scalar>(page: &Page<S>, selection: &[LayerId], id: LayerId) -> (r:
    bool)
    ensures
        r == inside_selection(page@.layers, selection@, id),
{
    let mut k: usize = 0;
    while k < selection.len()
        invariant
            k <= selection.len(),
            forall|j: int|
                0 <= j < k ==> !(#[trigger] selection@[j] != id && (crate::tree::find(
                    page@.layers,
                    selection@[j],
                ) matches Some(v) && crate::tree::find(v.children, id) is Some)),
        decreases selection.len() - k,
    {
        if selection[k] != id {
            if let Some(layer) = page.find(selection[k]) {
                proof {
                    crate::tree::lemma_find_id(page@.layers, selection@[k as int]);
                }
                if find_layer(layer, id).is_some() {
                    assert(selection@[k as int] != id);
                    return true;
                }
            }
        }
        k += 1;
    }
    false
}

/// Where each of the named layers that exist is, in its parent.
pub open spec fn starts_of<S>(s: Seq<LayerView<S>>, ids: Seq<LayerId>) -> Seq<(LayerId, Pos2<S>)>
    decreases ids.len(),
{
    if ids.len() == 0 {
        Seq::empty()
    } else {
        let rest = starts_of(s, ids.drop_last());
        match crate::tree::find(s, ids.last()) {
            Some(v) => rest.push((ids.last(), v.frame.pos)),
            None => rest,
        }
    }
}

/// Where each of the named layers that exist is, in its parent.
pub fn move_starts<S: Scalar>(page: &Page<S>, ids: &[LayerId]) -> (r: Vec<(LayerId, Pos2<S>)>)
    ensures
        r@ == starts_of(page@.layers, ids@),
{
    let mut r: Vec<(LayerId, Pos2<S>)> = Vec::new();
    let mut k: usize = 0;
    assert(ids@.take(0) =~= Seq::empty());
    while k < ids.len()
        invariant
            k <= ids.len(),
            r@ == starts_of(page@.layers, ids@.take(k as int)),
        decreases ids.len() - k,
    {
        assert(ids@.take(k + 1).drop_last() =~= ids@.take(k as int));
        if let Some(layer) = page.find(ids[k]) {
            r.push((ids[k], layer.frame.pos));
        }
        k += 1;
    }
    assert(ids@.take(k as int) =~= ids@);
    r
}

} // verus!
