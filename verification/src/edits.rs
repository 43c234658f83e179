//! Simple changes to layers, one or many at once.
use vstd::prelude::*;

use crate::color::Color32;
use crate::document::{without, Page};
use crate::geometry::{Pos2, Vec2};
use crate::grouping::{parent_and_index, place_of};
use crate::model::{group_views, views, BoolOp, Frame, Layer, LayerId, LayerKind, LayerView};
use crate::scalar::Scalar;
use crate::style::{Paint, PaintView, StyleView};

verus! {

broadcast use group_views;

/// A change to one layer.
#[derive(Debug, PartialEq)]
pub enum LayerEdit<S> {
    Move(Vec2<S>),
    Resize(Vec2<S>),
    Fill(Color32),
    Rename(String),
    ToggleVisible,
    ToggleLocked,
    ToggleMask,
    ToggleIgnoreMask,
    SetBoolOp(BoolOp),
}

pub enum EditView<S> {
    Move(Vec2<S>),
    Resize(Vec2<S>),
    Fill(Color32),
    Rename(Seq<char>),
    ToggleVisible,
    ToggleLocked,
    ToggleMask,
    ToggleIgnoreMask,
    SetBoolOp(BoolOp),
}

impl<S: Scalar> LayerEdit<S> {
    pub open spec fn view(&self) -> EditView<S> {
        match *self {
            LayerEdit::Move(v) => EditView::Move(v),
            LayerEdit::Resize(v) => EditView::Resize(v),
            LayerEdit::Fill(c) => EditView::Fill(c),
            LayerEdit::Rename(name) => EditView::Rename(name@),
            LayerEdit::ToggleVisible => EditView::ToggleVisible,
            LayerEdit::ToggleLocked => EditView::ToggleLocked,
            LayerEdit::ToggleMask => EditView::ToggleMask,
            LayerEdit::ToggleIgnoreMask => EditView::ToggleIgnoreMask,
            LayerEdit::SetBoolOp(op) => EditView::SetBoolOp(op),
        }
    }
}

/// A layer after a change.
pub open spec fn edited<S: Scalar>(v: LayerView<S>, edit: EditView<S>) -> LayerView<S> {
    match edit {
        EditView::Move(d) => v.with_frame(v.frame.spec_moved(d)),
        EditView::Resize(d) => v.with_frame(Frame { size: v.frame.size.spec_plus(d), ..v.frame }),
        EditView::Fill(c) => LayerView {
            style: StyleView { fill: Some(PaintView::Solid(c)), ..v.style },
            ..v
        },
        EditView::Rename(name) => LayerView { name, ..v },
        EditView::ToggleVisible => LayerView { visible: !v.visible, ..v },
        EditView::ToggleLocked => LayerView { locked: !v.locked, ..v },
        EditView::ToggleMask => LayerView { is_mask: !v.is_mask, ..v },
        EditView::ToggleIgnoreMask => LayerView { ignore_mask: !v.ignore_mask, ..v },
        EditView::SetBoolOp(op) => LayerView { bool_op: op, ..v },
    }
}

/// The layers after one of them was changed; as they were where there is no such layer.
pub open spec fn edited_one<S: Scalar>(s: Seq<LayerView<S>>, id: LayerId, edit: EditView<S>) -> Seq<
    LayerView<S>,
> {
    match crate::tree::find(s, id) {
        Some(v) => crate::tree::replace(s, id, edited(v, edit)),
        None => s,
    }
}

/// The layers after each of the named was changed in turn.
pub open spec fn edited_each<S: Scalar>(
    s: Seq<LayerView<S>>,
    ids: Seq<LayerId>,
    edit: EditView<S>,
) -> Seq<LayerView<S>>
    decreases ids.len(),
{
    if ids.len() == 0 {
        s
    } else {
        edited_one(edited_each(s, ids.drop_last(), edit), ids.last(), edit)
    }
}

/// Changes a layer.
fn edit_layer<S: Scalar>(layer: &mut Layer<S>, edit: &LayerEdit<S>)
    ensures
        final(layer)@ == edited(old(layer)@, edit@),
{
    match edit {
        LayerEdit::Move(d) => {
            layer.frame = layer.frame.moved(*d);
        },
        LayerEdit::Resize(d) => {
            layer.frame.size = layer.frame.size.plus(*d);
        },
        LayerEdit::Fill(c) => {
            layer.style.fill = Some(Paint::Solid(*c));
        },
        LayerEdit::Rename(name) => {
            layer.name = name.clone();
        },
        LayerEdit::ToggleVisible => {
            layer.visible = !layer.visible;
        },
        LayerEdit::ToggleLocked => {
            layer.locked = !layer.locked;
        },
        LayerEdit::ToggleMask => {
            layer.is_mask = !layer.is_mask;
        },
        LayerEdit::ToggleIgnoreMask => {
            layer.ignore_mask = !layer.ignore_mask;
        },
        LayerEdit::SetBoolOp(op) => {
            layer.bool_op = *op;
        },
    }
}

/// Changes one layer of a page, if it exists.
pub fn edit_one<S: Scalar>(page: &mut Page<S>, id: LayerId, edit: &LayerEdit<S>)
    ensures
        final(page)@ == old(page)@.with_layers(edited_one(old(page)@.layers, id, edit@)),
{
    if let Some(layer) = page.find_mut(id) {
        edit_layer(layer, edit);
    }
}

/// Changes each of the named layers of a page.
pub fn edit_each<S: Scalar>(page: &mut Page<S>, ids: &Vec<LayerId>, edit: &LayerEdit<S>)
    ensures
        final(page)@ == old(page)@.with_layers(edited_each(old(page)@.layers, ids@, edit@)),
{
    let ghost s = page@.layers;
    let mut i: usize = 0;
    assert(ids@.take(0) =~= Seq::empty());
    while i < ids.len()
        invariant
            i <= ids.len(),
            page@ == old(page)@.with_layers(edited_each(s, ids@.take(i as int), edit@)),
        decreases ids.len() - i,
    {
        assert(ids@.take(i + 1).drop_last() =~= ids@.take(i as int));
        assert(ids@.take(i + 1).last() == ids@[i as int]);
        edit_one(page, ids[i], edit);
        i += 1;
    }
    assert(ids@.take(i as int) =~= ids@);
}

/// The layers after the first `k` renames.
pub open spec fn renamed<S: Scalar>(
    s: Seq<LayerView<S>>,
    names: Seq<(LayerId, Seq<char>)>,
    k: nat,
) -> Seq<LayerView<S>>
    decreases k,
{
    if k == 0 {
        s
    } else {
        edited_one(
            renamed(s, names, (k - 1) as nat),
            names[k - 1].0,
            EditView::Rename(names[k - 1].1),
        )
    }
}

/// Names over sequences.
pub open spec fn name_views(names: Seq<(LayerId, String)>) -> Seq<(LayerId, Seq<char>)> {
    Seq::new(names.len(), |i: int| (names[i].0, names[i].1@))
}

/// Gives layers new names.
pub fn rename_each<S: Scalar>(page: &mut Page<S>, names: &Vec<(LayerId, String)>)
    ensures
        final(page)@ == old(page)@.with_layers(
            renamed(old(page)@.layers, name_views(names@), names@.len()),
        ),
{
    let ghost s = page@.layers;
    let ghost all = name_views(names@);
    let mut i: usize = 0;
    while i < names.len()
        invariant
            all == name_views(names@),
            i <= names.len(),
            page@ == old(page)@.with_layers(renamed(s, all, i as nat)),
        decreases names.len() - i,
    {
        let edit = LayerEdit::Rename(names[i].1.clone());
        edit_one(page, names[i].0, &edit);
        i += 1;
    }
}

/// The layers after each of the named was taken away in turn.
pub open spec fn removed_each<S: Scalar>(s: Seq<LayerView<S>>, ids: Seq<LayerId>) -> Seq<LayerView<S>>
    decreases ids.len(),
{
    if ids.len() == 0 {
        s
    } else {
        without(removed_each(s, ids.drop_last()), ids.last())
    }
}

/// Takes each of the named layers off a page.
pub fn remove_each<S: Scalar>(page: &mut Page<S>, ids: &Vec<LayerId>)
    ensures
        final(page)@ == old(page)@.with_layers(removed_each(old(page)@.layers, ids@)),
{
    let ghost s = page@.layers;
    let mut i: usize = 0;
    assert(ids@.take(0) =~= Seq::empty());
    while i < ids.len()
        invariant
            i <= ids.len(),
            page@ == old(page)@.with_layers(removed_each(s, ids@.take(i as int))),
        decreases ids.len() - i,
    {
        assert(ids@.take(i + 1).drop_last() =~= ids@.take(i as int));
        assert(ids@.take(i + 1).last() == ids@[i as int]);
        let gone = page.remove(ids[i]);
        i += 1;
    }
    assert(ids@.take(i as int) =~= ids@);
}

/// What is selected in place of a layer that was deleted from a container: what is now where it
/// was, else the last of its siblings, else the container. With it comes the container itself.
#[verifier::opaque]
pub open spec fn successor<S>(
    before: Seq<LayerView<S>>,
    after: Seq<LayerView<S>>,
    id: LayerId,
) -> Option<(LayerId, LayerId)> {
    match place_of(before, id) {
        Some((Some(parent), k)) => Some(
            (
                match crate::tree::find(after, parent) {
                    Some(v) => if k < v.children.len() {
                        v.children[k].id
                    } else if v.children.len() > 0 {
                        v.children.last().id
                    } else {
                        parent
                    },
                    None => parent,
                },
                parent,
            ),
        ),
        _ => None,
    }
}

/// What is selected in place of a layer that was deleted, given where it was.
pub fn next_selected<S: Scalar>(page: &Page<S>, place: Option<(Option<LayerId>, usize)>) -> (r: Option<
    (LayerId, LayerId),
>)
    ensures
        forall|before: Seq<LayerView<S>>, id: LayerId|
            (match #[trigger] place_of(before, id) {
                Some((p, k)) => place matches Some(q) && q.0 == p && q.1 == k,
                None => place is None,
            }) ==> r == successor(before, page@.layers, id),
{
    reveal(successor);
    match place {
        Some((Some(parent), k)) => {
            let next = match page.find(parent) {
                Some(layer) => match layer.children() {
                    Some(children) => if k < children.len() {
                        assert(layer@.children[k as int] == children@[k as int]@);
                        children[k].id
                    } else if children.len() > 0 {
                        assert(layer@.children.last() == children@.last()@);
                        children[children.len() - 1].id
                    } else {
                        parent
                    },
                    None => parent,
                },
                None => parent,
            };
            Some((next, parent))
        },
        _ => None,
    }
}

/// Takes a layer off a page, and tells what is to be selected in its place.
pub fn remove_one<S: Scalar>(page: &mut Page<S>, id: LayerId) -> (r: Option<(LayerId, LayerId)>)
    ensures
        final(page)@ == old(page)@.with_layers(without(old(page)@.layers, id)),
        r == successor(old(page)@.layers, final(page)@.layers, id),
{
    let ghost before = page@.layers;
    let place = parent_and_index(&page.layers, id);
    let gone = page.remove(id);
    let r = next_selected(page, place);
    proof {
        let p = place_of(before, id);
        assert(r == successor(before, page@.layers, id));
    }
    r
}

/// Where new things are put: right of everything on the page.
pub open spec fn rightmost<S: Scalar>(s: Seq<LayerView<S>>, k: nat) -> S
    decreases k,
{
    if k == 0 {
        S::spec_ratio(0, 1)
    } else {
        rightmost(s, (k - 1) as nat).spec_greater(s[k - 1].frame.spec_bounds().max.x)
    }
}

/// Where new things are put: right of everything on the page, or near its corner if it is empty.
pub open spec fn insert_anchor<S: Scalar>(s: Seq<LayerView<S>>) -> Pos2<S> {
    let right = rightmost(s, s.len());
    let forty = S::spec_ratio(40, 1);
    Pos2 {
        x: if S::spec_ratio(0, 1).spec_lt(right) {
            right.spec_plus(forty)
        } else {
            forty
        },
        y: forty,
    }
}

/// Where new things are put: right of everything on the page, or near its corner if it is empty.
pub fn default_insert_anchor<S: Scalar>(page: &Page<S>) -> (r: Pos2<S>)
    ensures
        r == insert_anchor(page@.layers),
{
    let ghost s = page@.layers;
    let mut right = S::ratio(0, 1);
    let mut i: usize = 0;
    while i < page.layers.len()
        invariant
            s == views(page.layers@),
            i <= page.layers.len(),
            right == rightmost(s, i as nat),
        decreases page.layers.len() - i,
    {
        right = right.greater(page.layers[i].frame.bounds().max.x);
        i += 1;
    }
    let forty = S::ratio(40, 1);
    let x = if S::ratio(0, 1).is_lt(right) {
        right.plus(forty)
    } else {
        forty
    };
    Pos2 { x, y: forty }
}

/// A layer as a list of all layers shows it.
#[derive(Debug, PartialEq)]
pub struct Listed<S> {
    pub id: LayerId,
    pub name: String,
    pub size: Vec2<S>,
}

#[verifier::ext_equal]
pub struct ListedView<S> {
    pub id: LayerId,
    pub name: Seq<char>,
    pub size: Vec2<S>,
}

impl<S: Scalar> Listed<S> {
    pub open spec fn view(&self) -> ListedView<S> {
        ListedView { id: self.id, name: self.name@, size: self.size }
    }
}

pub open spec fn listed_views<S: Scalar>(s: Seq<Listed<S>>) -> Seq<ListedView<S>> {
    Seq::new(s.len(), |i: int| s[i]@)
}

/// A layer as a list of all layers shows it.
pub open spec fn listed<S: Scalar>(v: LayerView<S>) -> ListedView<S> {
    ListedView { id: v.id, name: v.name, size: v.frame.spec_bounds().spec_size() }
}

/// Every layer at or under those of a list, each before what it holds.
pub open spec fn flat_list<S: Scalar>(s: Seq<LayerView<S>>) -> Seq<ListedView<S>>
    decreases s,
{
    if s.len() == 0 {
        Seq::empty()
    } else {
        flat_list(s.drop_last()) + seq![listed(s.last())] + flat_list(s.last().children)
    }
}

fn push_listed<S: Scalar>(layers: &Vec<Layer<S>>, out: &mut Vec<Listed<S>>)
    ensures
        listed_views(final(out)@) == listed_views(old(out)@) + flat_list(views(layers@)),
    decreases layers@,
{
    let ghost s = views(layers@);
    let ghost start = listed_views(out@);
    let mut i: usize = 0;
    assert(s.take(0) =~= Seq::empty());
    assert(listed_views(out@) =~= start + flat_list(s.take(0)));
    while i < layers.len()
        invariant
            i <= layers.len(),
            s == views(layers@),
            listed_views(out@) == start + flat_list(s.take(i as int)),
        decreases layers.len() - i,
    {
        let layer = &layers[i];
        let ghost done = s.take(i as int);
        let ghost next = s.take(i + 1);
        assert(next.drop_last() =~= done);
        assert(next.last() == layer@);
        let ghost before = listed_views(out@);
        out.push(
            Listed { id: layer.id, name: layer.name.clone(), size: layer.frame.bounds().size() },
        );
        assert(listed_views(out@) =~= before.push(listed(layer@)));
        match layer.children() {
            Some(children) => {
                push_listed(children, out);
            },
            None => {
                assert(flat_list(layer@.children) =~= Seq::empty());
            },
        }
        i += 1;
        assert(listed_views(out@) =~= start + flat_list(next));
    }
    assert(s.take(s.len() as int) =~= s);
}

/// Every layer of a page, each before what it holds.
pub fn all_layers_flat<S: Scalar>(page: &Page<S>) -> (r: Vec<Listed<S>>)
    ensures
        listed_views(r@) == flat_list(page@.layers),
{
    let mut out: Vec<Listed<S>> = Vec::new();
    push_listed(&page.layers, &mut out);
    assert(listed_views(out@) =~= flat_list(page@.layers));
    out
}

/// The named layers of a page, as a list of all layers shows them; ids without a layer are left
/// out.
pub open spec fn listed_each<S: Scalar>(s: Seq<LayerView<S>>, ids: Seq<LayerId>) -> Seq<ListedView<S>>
    decreases ids.len(),
{
    if ids.len() == 0 {
        Seq::empty()
    } else {
        let rest = listed_each(s, ids.drop_last());
        match crate::tree::find(s, ids.last()) {
            Some(v) => rest.push(listed(v)),
            None => rest,
        }
    }
}

/// The named layers of a page; ids without a layer are left out.
pub fn list_each<S: Scalar>(page: &Page<S>, ids: &Vec<LayerId>) -> (r: Vec<Listed<S>>)
    ensures
        listed_views(r@) == listed_each(page@.layers, ids@),
{
    let mut out: Vec<Listed<S>> = Vec::new();
    let mut i: usize = 0;
    assert(ids@.take(0) =~= Seq::empty());
    assert(listed_views(out@) =~= Seq::empty());
    while i < ids.len()
        invariant
            i <= ids.len(),
            listed_views(out@) == listed_each(page@.layers, ids@.take(i as int)),
        decreases ids.len() - i,
    {
        let ghost next = ids@.take(i + 1);
        assert(next.drop_last() =~= ids@.take(i as int));
        assert(next.last() == ids@[i as int]);
        if let Some(layer) = page.find(ids[i]) {
            let ghost before = listed_views(out@);
            out.push(
                Listed { id: layer.id, name: layer.name.clone(), size: layer.frame.bounds().size() },
            );
            assert(listed_views(out@) =~= before.push(listed(layer@)));
        }
        i += 1;
    }
    assert(ids@.take(ids@.len() as int) =~= ids@);
    out
}

/// The ids of every image at or under the layers of a list.
pub open spec fn images_in<S>(s: Seq<LayerView<S>>) -> Seq<LayerId>
    decreases s,
{
    if s.len() == 0 {
        Seq::empty()
    } else {
        images_in(s.drop_last()) + (if s.last().kind is Image {
            seq![s.last().id]
        } else {
            Seq::empty()
        }) + images_in(s.last().children)
    }
}

/// Collects the ids of every image at or under the layers of a list.
pub fn collect_images<S: Scalar>(layers: &Vec<Layer<S>>, out: &mut Vec<LayerId>)
    ensures
        final(out)@ == old(out)@ + images_in(views(layers@)),
    decreases layers@,
{
    let ghost s = views(layers@);
    let ghost start = out@;
    let mut i: usize = 0;
    assert(s.take(0) =~= Seq::empty());
    assert(out@ =~= start + images_in(s.take(0)));
    while i < layers.len()
        invariant
            i <= layers.len(),
            s == views(layers@),
            out@ == start + images_in(s.take(i as int)),
        decreases layers.len() - i,
    {
        let layer = &layers[i];
        let ghost next = s.take(i + 1);
        assert(next.drop_last() =~= s.take(i as int));
        assert(next.last() == layer@);
        if let LayerKind::Image { .. } = &layer.kind {
            out.push(layer.id);
        }
        match layer.children() {
            Some(children) => {
                collect_images(children, out);
            },
            None => {
                assert(images_in(layer@.children) =~= Seq::empty());
            },
        }
        i += 1;
        assert(out@ =~= start + images_in(next));
    }
    assert(s.take(s.len() as int) =~= s);
}

/// Whether a layer's change is taken back by the same change.
pub open spec fn is_toggle<S>(edit: EditView<S>) -> bool {
    edit is ToggleVisible || edit is ToggleLocked || edit is ToggleMask || edit is ToggleIgnoreMask
}

/// What a switch did to a layer, the same switch takes back.
pub proof fn law_toggling_twice_restores<S: Scalar>(v: LayerView<S>, edit: EditView<S>)
    requires
        is_toggle(edit),
    ensures
        edited(edited(v, edit), edit) == v,
{
}

} // verus!
