//! When two layers are alike: where nothing of the one differs from the other.
use vstd::prelude::*;

use crate::alike::{
    same_kind, same_layer, same_layers, same_paint, same_points, same_polygon, same_polygons,
    same_ring, same_run, same_runs, same_shadows, same_stops, same_style, same_text,
};
use crate::fixed::Fixed;
use crate::geometry::Pos2;
use crate::model::{KindView, LayerView, PathPoint, PolygonView};
use crate::style::{PaintView, StyleView};
use crate::text::TextBlockView;

verus! {

/// Layers that are alike are equal in all that they hold, however deep; layers that differ in anything
/// are not alike.
pub proof fn law_like_layers_are_equal(a: LayerView<Fixed>, b: LayerView<Fixed>)
    ensures
        same_layer(a, b) ==> a == b,
    decreases a,
{
    if same_layer(a, b) {
        lemma_like_kinds(a.kind, b.kind);
        lemma_like_styles(a.style, b.style);
        law_like_lists_are_equal(a.children, b.children);
        assert(a.children == b.children);
        assert(a =~= b);
    }
}

/// Lists that are alike hold equal layers in one order.
pub proof fn law_like_lists_are_equal(a: Seq<LayerView<Fixed>>, b: Seq<LayerView<Fixed>>)
    ensures
        same_layers(a, b) ==> a == b,
    decreases a,
{
    if same_layers(a, b) {
        if a.len() > 0 {
            law_like_layers_are_equal(a[0], b[0]);
            law_like_lists_are_equal(a.drop_first(), b.drop_first());
            assert(a =~= seq![a[0]] + a.drop_first());
            assert(b =~= seq![b[0]] + b.drop_first());
        } else {
            assert(a =~= b);
        }
    }
}

proof fn lemma_like_rings(a: Seq<Pos2<Fixed>>, b: Seq<Pos2<Fixed>>)
    ensures
        same_ring(a, b) ==> a == b,
{
    if same_ring(a, b) {
        assert(a =~= b);
    }
}

proof fn lemma_like_polygons(a: Seq<PolygonView<Fixed>>, b: Seq<PolygonView<Fixed>>)
    ensures
        same_polygons(a, b) ==> a == b,
{
    if same_polygons(a, b) {
        assert forall|i: int| 0 <= i < a.len() implies a[i] == b[i] by {
            assert(same_polygon(a[i], b[i]));
            lemma_like_rings(a[i].exterior, b[i].exterior);
            assert forall|j: int| 0 <= j < a[i].holes.len() implies a[i].holes[j] == b[i].holes[j] by {
                assert(same_ring(a[i].holes[j], b[i].holes[j]));
                lemma_like_rings(a[i].holes[j], b[i].holes[j]);
            }
            assert(a[i].holes =~= b[i].holes);
            assert(a[i] =~= b[i]);
        }
        assert(a =~= b);
    }
}

proof fn lemma_like_points(a: Seq<PathPoint<Fixed>>, b: Seq<PathPoint<Fixed>>)
    ensures
        same_points(a, b) ==> a == b,
{
    if same_points(a, b) {
        assert(a =~= b);
    }
}

proof fn lemma_like_texts(a: TextBlockView<Fixed>, b: TextBlockView<Fixed>)
    ensures
        same_text(a, b) ==> a == b,
{
    if same_text(a, b) {
        assert(same_runs(a.runs, b.runs));
        assert forall|i: int| 0 <= i < a.runs.len() implies a.runs[i] == b.runs[i] by {
            assert(same_run(a.runs[i], b.runs[i]));
            assert(a.runs[i] =~= b.runs[i]);
        }
        assert(a.runs =~= b.runs);
        assert(a =~= b);
    }
}

proof fn lemma_like_kinds(a: KindView<Fixed>, b: KindView<Fixed>)
    ensures
        same_kind(a, b) ==> a == b,
{
    if same_kind(a, b) {
        match (a, b) {
            (KindView::Path { points: p, .. }, KindView::Path { points: q, .. }) => {
                lemma_like_points(p, q);
            },
            (KindView::CompoundPath { polygons: p }, KindView::CompoundPath { polygons: q }) => {
                lemma_like_polygons(p, q);
            },
            (KindView::Text { text: p }, KindView::Text { text: q }) => {
                lemma_like_texts(p, q);
            },
            _ => {},
        }
        assert(a =~= b);
    }
}

proof fn lemma_like_paints(a: PaintView<Fixed>, b: PaintView<Fixed>)
    ensures
        same_paint(a, b) ==> a == b,
{
    if same_paint(a, b) {
        if let PaintView::Gradient { stops: p, .. } = a {
            if let PaintView::Gradient { stops: q, .. } = b {
                assert(same_stops(p, q));
                assert(p =~= q);
            }
        }
        assert(a =~= b);
    }
}

proof fn lemma_like_styles(a: StyleView<Fixed>, b: StyleView<Fixed>)
    ensures
        same_style(a, b) ==> a == b,
{
    if same_style(a, b) {
        if let (Some(p), Some(q)) = (a.fill, b.fill) {
            lemma_like_paints(p, q);
        }
        if let (Some(p), Some(q)) = (a.stroke, b.stroke) {
            lemma_like_paints(p.paint, q.paint);
            assert(p =~= q);
        }
        assert(same_shadows(a.shadows, b.shadows));
        assert(a.shadows =~= b.shadows);
        assert(a.inner_shadows =~= b.inner_shadows);
        assert(a =~= b);
    }
}

} // verus!
