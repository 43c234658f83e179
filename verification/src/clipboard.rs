//! Layers on their way through the clipboard: how they are marked as ours, which are taken, and
//! where they are put.
use vstd::prelude::*;

use crate::document::Page;
use crate::geometry::{Rect, Vec2};
use crate::grouping::{ids_of, list_ids, move_all, moved};
use crate::history::{History, HistoryView};
use crate::hover::{placed_layers, placed_views, selected_layers};
use crate::model::{
    count_all, group_views, regenerate_all_ids, renumbered_all, views, IdSource, Layer, LayerId,
    LayerView,
};
use crate::scalar::Scalar;

verus! {

broadcast use group_views;

/// What copied layers begin with, so that other text in the clipboard is told apart.
pub const SENTINEL: &'static str = "SDESIGN_LAYERS_V1\n";

/// Appends the characters of a text from the `start`-th on.
fn append_from(out: &mut String, text: &str, start: usize)
    requires
        start <= text@.len(),
    ensures
        final(out)@ == old(out)@ + text@.skip(start as int),
{
    let n: usize = text.unicode_len();
    let mut i: usize = start;
    assert(out@ =~= old(out)@ + text@.subrange(start as int, start as int));
    while i < n
        invariant
            n == text@.len(),
            start <= i <= n,
            out@ == old(out)@ + text@.subrange(start as int, i as int),
        decreases n - i,
    {
        out.push(text.get_char(i));
        i += 1;
        assert(out@ =~= old(out)@ + text@.subrange(start as int, i as int));
    }
    assert(text@.subrange(start as int, n as int) =~= text@.skip(start as int));
}

/// The text that stands for copied layers in the clipboard.
pub fn frame_text(payload: &str) -> (r: String)
    ensures
        r@ == SENTINEL@ + payload@,
{
    let mut r = String::new();
    append_from(&mut r, SENTINEL, 0);
    append_from(&mut r, payload, 0);
    assert(SENTINEL@.skip(0) =~= SENTINEL@);
    assert(payload@.skip(0) =~= payload@);
    assert(r@ =~= SENTINEL@ + payload@);
    r
}

/// What a text from the clipboard says of layers; nothing, if it is not ours.
pub open spec fn payload_of(text: Seq<char>) -> Option<Seq<char>> {
    if SENTINEL@.is_prefix_of(text) {
        Some(text.skip(SENTINEL@.len() as int))
    } else {
        None
    }
}

/// What a text from the clipboard says of layers; nothing, if it is not ours.
pub fn strip_text(text: &str) -> (r: Option<String>)
    ensures
        match payload_of(text@) {
            Some(p) => r matches Some(s) && s@ == p,
            None => r is None,
        },
{
    let mark: &str = SENTINEL;
    let m: usize = mark.unicode_len();
    let n: usize = text.unicode_len();
    if n < m {
        return None;
    }
    let mut i: usize = 0;
    while i < m
        invariant
            mark@ == SENTINEL@,
            m == mark@.len(),
            n == text@.len(),
            m <= n,
            i <= m,
            forall|k: int| 0 <= k < i ==> #[trigger] text@[k] == mark@[k],
        decreases m - i,
    {
        if text.get_char(i) != mark.get_char(i) {
            assert(text@[i as int] != mark@[i as int]);
            return None;
        }
        i += 1;
    }
    assert(SENTINEL@ =~= text@.take(m as int));
    let mut r = String::new();
    append_from(&mut r, text, m);
    assert(r@ =~= text@.skip(m as int));
    Some(r)
}

/// What was marked as ours is read back as it was.
pub proof fn law_marked_text_is_read_back(payload: Seq<char>)
    ensures
        payload_of(SENTINEL@ + payload) == Some(payload),
{
    let t = SENTINEL@ + payload;
    assert(t.take(SENTINEL@.len() as int) =~= SENTINEL@);
    assert(t.skip(SENTINEL@.len() as int) =~= payload);
}

/// The layers of a selection that exist, in its order.
pub open spec fn taken<S>(s: Seq<LayerView<S>>, ids: Seq<LayerId>) -> Seq<LayerView<S>>
    decreases ids.len(),
{
    if ids.len() == 0 {
        Seq::empty()
    } else {
        let rest = taken(s, ids.drop_last());
        match crate::tree::find(s, ids.last()) {
            Some(v) => rest.push(v),
            None => rest,
        }
    }
}

/// Copies of the layers of a selection that exist, in its order; nothing is to be copied if there
/// are none.
pub fn copy_selection<S: Scalar>(history: &History<S>, selection: &Vec<LayerId>) -> (r: Vec<
    Layer<S>,
>)
    requires
        history@.current.wf(),
    ensures
        views(r@) == taken(history@.layers(), selection@),
{
    let page = history.page();
    let mut r: Vec<Layer<S>> = Vec::new();
    let mut i: usize = 0;
    assert(selection@.take(0) =~= Seq::empty());
    assert(views(r@) =~= Seq::empty());
    while i < selection.len()
        invariant
            page@.layers == history@.layers(),
            i <= selection.len(),
            views(r@) == taken(history@.layers(), selection@.take(i as int)),
        decreases selection.len() - i,
    {
        assert(selection@.take(i + 1).drop_last() =~= selection@.take(i as int));
        assert(selection@.take(i + 1).last() == selection@[i as int]);
        if let Some(layer) = page.find(selection[i]) {
            r.push(layer.duplicate());
        }
        i += 1;
    }
    assert(selection@.take(i as int) =~= selection@);
    r
}

/// Gives pasted layers ids of their own.
pub fn paste_layers<S: Scalar>(layers: Vec<Layer<S>>, source: &mut IdSource) -> (r: Vec<Layer<S>>)
    requires
        old(source).next + count_all(views(layers@)) <= u64::MAX,
    ensures
        views(r@) == renumbered_all(views(layers@), old(source).next as int),
        final(source).next == old(source).next + count_all(views(layers@)),
{
    let mut layers = layers;
    regenerate_all_ids(&mut layers, source);
    layers
}

/// The box around the turned frames of some layers on the page.
pub open spec fn turned_union<S: Scalar>(placed: Seq<(LayerView<S>, Vec2<S>)>) -> Rect<S>
    decreases placed.len(),
{
    let b = placed.last().0.frame.spec_rotated_bounds().spec_translate(placed.last().1);
    if placed.len() <= 1 {
        b
    } else {
        turned_union(placed.drop_last()).spec_union(b)
    }
}

fn turned_union_of<S: Scalar>(placed: &Vec<(&Layer<S>, Vec2<S>)>) -> (r: Rect<S>)
    requires
        placed.len() > 0,
    ensures
        r == turned_union(placed_views(placed@)),
{
    let ghost all = placed_views(placed@);
    let mut b = placed[0].0.frame.rotated_bounds().translate(placed[0].1);
    let mut i: usize = 1;
    assert(all.take(1).last() == all[0]);
    while i < placed.len()
        invariant
            1 <= i <= placed.len(),
            all == placed_views(placed@),
            b == turned_union(all.take(i as int)),
        decreases placed.len() - i,
    {
        assert(all.take(i + 1).drop_last() =~= all.take(i as int));
        assert(all.take(i + 1).last() == all[i as int]);
        b = b.union(placed[i].0.frame.rotated_bounds().translate(placed[i].1));
        i += 1;
    }
    assert(all.take(i as int) =~= all);
    b
}

/// The box around the upright frames of some layers.
pub open spec fn frame_union<S: Scalar>(s: Seq<LayerView<S>>) -> Rect<S>
    decreases s.len(),
{
    let b = s.last().frame.spec_bounds();
    if s.len() <= 1 {
        b
    } else {
        frame_union(s.drop_last()).spec_union(b)
    }
}

fn frame_union_of<S: Scalar>(layers: &Vec<Layer<S>>) -> (r: Rect<S>)
    requires
        layers.len() > 0,
    ensures
        r == frame_union(views(layers@)),
{
    let ghost all = views(layers@);
    let mut b = layers[0].frame.bounds();
    let mut i: usize = 1;
    assert(all.take(1).last() == all[0]);
    while i < layers.len()
        invariant
            1 <= i <= layers.len(),
            all == views(layers@),
            b == frame_union(all.take(i as int)),
        decreases layers.len() - i,
    {
        assert(all.take(i + 1).drop_last() =~= all.take(i as int));
        assert(all.take(i + 1).last() == all[i as int]);
        b = b.union(layers[i].frame.bounds());
        i += 1;
    }
    assert(all.take(i as int) =~= all);
    b
}

/// How far pasted layers are moved: by the usual distance, or, to be pasted over the selection,
/// so that their box begins where its box begins; not at all where nothing of it exists.
pub open spec fn paste_shift<S: Scalar>(
    s: Seq<LayerView<S>>,
    selection: Seq<LayerId>,
    layers: Seq<LayerView<S>>,
    offset: Vec2<S>,
    over: bool,
) -> Option<Vec2<S>> {
    let placed = placed_layers(s, selection);
    if !over {
        Some(offset)
    } else if placed.len() == 0 {
        None
    } else {
        Some(turned_union(placed).min.spec_from(frame_union(layers).min))
    }
}

/// The layers of a page after others were put into it: into the one selected container, else in
/// front of all.
pub open spec fn put_in<S>(
    s: Seq<LayerView<S>>,
    selection: Seq<LayerId>,
    layers: Seq<LayerView<S>>,
) -> Seq<LayerView<S>> {
    if selection.len() == 1 && (crate::tree::find(s, selection[0]) matches Some(v)
        && v.is_container()) {
        let v = crate::tree::find(s, selection[0])->0;
        crate::tree::replace(s, selection[0], v.with_children(v.children + layers))
    } else {
        s + layers
    }
}

/// Where pasted layers end up.
pub open spec fn shifted<S: Scalar>(layers: Seq<LayerView<S>>, by: Option<Vec2<S>>) -> Seq<
    LayerView<S>,
> {
    match by {
        Some(v) => moved(layers, v),
        None => layers,
    }
}

/// The history and the selection after a paste; unchanged if there is nothing to paste.
pub open spec fn pasted<S: Scalar>(
    h: HistoryView<S>,
    selection: Seq<LayerId>,
    layers: Seq<LayerView<S>>,
    offset: Vec2<S>,
    over: bool,
) -> (HistoryView<S>, Seq<LayerId>) {
    if layers.len() == 0 {
        (h, selection)
    } else {
        let placed = shifted(
            layers,
            paste_shift(h.layers(), selection, layers, offset, over),
        );
        (h.after_snapshot().with_layers(put_in(h.layers(), selection, placed)), ids_of(placed))
    }
}

/// Puts layers into a page: into the one selected container, else in front of all.
fn put_layers<S: Scalar>(page: &mut Page<S>, selection: &Vec<LayerId>, layers: Vec<Layer<S>>)
    ensures
        final(page)@ == old(page)@.with_layers(
            put_in(old(page)@.layers, selection@, views(layers@)),
        ),
{
    let mut layers = layers;
    let ghost added = views(layers@);
    let ghost s = page@.layers;
    if selection.len() == 1 {
        let id = selection[0];
        let holds = match page.find(id) {
            Some(layer) => layer.children().is_some(),
            None => false,
        };
        if holds {
            match page.find_mut(id) {
                Some(layer) => {
                    let ghost v = layer@;
                    match layer.children_mut() {
                        Some(children) => {
                            let ghost before = views(children@);
                            children.append(&mut layers);
                            assert(views(children@) =~= before + added);
                        },
                        None => {},
                    }
                },
                None => {},
            }
            return;
        }
    }
    page.layers.append(&mut layers);
    assert(views(page.layers@) =~= s + added);
}

/// Pastes layers that have ids of their own and selects them: into the one selected container,
/// else in front of all. Over the selection, their box begins where the selection's does;
/// otherwise they are moved by `duplicate_offset`.
pub fn paste_selection<S: Scalar>(
    history: &mut History<S>,
    selection: &mut Vec<LayerId>,
    layers: Vec<Layer<S>>,
    duplicate_offset: Vec2<S>,
    over: bool,
)
    requires
        old(history)@.current.wf(),
    ensures
        (final(history)@, final(selection)@) == pasted(
            old(history)@,
            old(selection)@,
            views(layers@),
            duplicate_offset,
            over,
        ),
{
    if layers.len() == 0 {
        return;
    }
    let mut layers = layers;
    let ghost given = views(layers@);
    let ghost s = history@.layers();
    let shift = if over {
        let placed = selected_layers(history.page(), selection);
        if placed.len() > 0 {
            let target = turned_union_of(&placed);
            Some(target.min.from(frame_union_of(&layers).min))
        } else {
            None
        }
    } else {
        Some(duplicate_offset)
    };
    assert(shift == paste_shift(s, selection@, given, duplicate_offset, over));
    if let Some(v) = shift {
        move_all(&mut layers, v);
    }
    let ghost placed = shifted(given, shift);
    assert(views(layers@) == placed);
    let ids = list_ids(&layers);
    history.snapshot();
    put_layers(history.page_mut(), selection, layers);
    *selection = ids;
}

/// Pasting makes a step that one undo takes back, whatever was pasted and wherever it went.
pub proof fn law_pasting_is_undone_at_once<S: Scalar>(
    h: HistoryView<S>,
    selection: Seq<LayerId>,
    layers: Seq<LayerView<S>>,
    offset: Vec2<S>,
    over: bool,
)
    requires
        layers.len() > 0,
    ensures
        pasted(h, selection, layers, offset, over).0.after_undo().current == h.current,
{
}

} // verus!
