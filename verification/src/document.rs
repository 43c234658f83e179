//! Pages and documents.
use vstd::prelude::*;

use crate::color::Color32;
use crate::geometry::Vec2;
use crate::model::{duplicate_all, group_views, views, Layer, LayerId, LayerView};
use crate::scalar::Scalar;
use crate::style::copy_vec;
use crate::tree::{find_in, find_mut_in, home_path, list_mut, position_of};

verus! {

broadcast use group_views;

#[derive(Clone, Copy, Debug, PartialEq, Eq, Structural)]
pub enum GuideOrientation {
    Horizontal,
    Vertical,
}

/// A ruler line across the page; `pos` is its `y` if horizontal, its `x` if vertical.
#[derive(Debug, PartialEq)]
pub struct Guide<S> {
    pub orientation: GuideOrientation,
    pub pos: S,
}

impl<S: Scalar> Clone for Guide<S> {
    fn clone(&self) -> (r: Self)
        ensures
            r == *self,
    {
        *self
    }
}

impl<S: Scalar> Copy for Guide<S> {

}

#[derive(Debug, PartialEq)]
pub struct Page<S> {
    pub name: String,
    pub layers: Vec<Layer<S>>,
    pub guides: Vec<Guide<S>>,
}

#[verifier::ext_equal]
pub struct PageView<S> {
    pub name: Seq<char>,
    pub layers: Seq<LayerView<S>>,
    pub guides: Seq<Guide<S>>,
}

impl<S> PageView<S> {
    pub open spec fn with_layers(self, layers: Seq<LayerView<S>>) -> Self {
        PageView { layers, ..self }
    }
}

/// The sum of the positions of the layers around the first layer with the given id.
pub open spec fn offset_of<S: Scalar>(s: Seq<LayerView<S>>, id: LayerId, outer: Vec2<S>) -> Option<
    Vec2<S>,
>
    decreases s,
{
    if s.len() == 0 {
        None
    } else if s[0].id == id {
        Some(outer)
    } else {
        match offset_of(s[0].children, id, outer.spec_plus(s[0].frame.pos.spec_to_vec2())) {
            Some(v) => Some(v),
            None => offset_of(s.drop_first(), id, outer),
        }
    }
}

/// The ids of the layers and of all that they hold, in document order.
pub open spec fn all_ids<S>(s: Seq<LayerView<S>>) -> Seq<LayerId>
    decreases s,
{
    if s.len() == 0 {
        Seq::empty()
    } else {
        all_ids(s.drop_last()) + seq![s.last().id] + all_ids(s.last().children)
    }
}

/// The list without the first layer, lists from the outside in, that has the given id.
pub open spec fn without<S>(s: Seq<LayerView<S>>, id: LayerId) -> Seq<LayerView<S>> {
    match crate::tree::home(s, seq![id]) {
        Some(p) => {
            let list = crate::tree::list_at(s, p);
            crate::tree::with_list_at(s, p, list.remove(crate::tree::position(list, id)))
        },
        None => s,
    }
}

/// The offset of a layer, with `outer` the offset of the list.
fn offset_in<S: Scalar>(layers: &Vec<Layer<S>>, id: LayerId, outer: Vec2<S>) -> (r: Option<Vec2<S>>)
    ensures
        r == offset_of(views(layers@), id, outer),
    decreases layers@,
{
    let ghost s = views(layers@);
    assert(s.skip(0) =~= s);
    let mut i: usize = 0;
    while i < layers.len()
        invariant
            i <= layers.len(),
            s == views(layers@),
            offset_of(s, id, outer) == offset_of(s.skip(i as int), id, outer),
        decreases layers.len() - i,
    {
        let layer = &layers[i];
        let ghost rest = s.skip(i as int);
        assert(rest[0] == layer@);
        assert(rest.drop_first() =~= s.skip(i + 1));
        if layer.id == id {
            return Some(outer);
        }
        let inner = outer.plus(layer.frame.pos.to_vec2());
        match layer.children() {
            Some(children) => {
                let found = offset_in(children, id, inner);
                if found.is_some() {
                    return found;
                }
            },
            None => {
                assert(offset_of(layer@.children, id, inner) is None);
            },
        }
        i += 1;
    }
    None
}

/// The ids in `layers`, added to the end of `out`.
fn collect_ids<S: Scalar>(layers: &Vec<Layer<S>>, out: &mut Vec<LayerId>)
    ensures
        final(out)@ == old(out)@ + all_ids(views(layers@)),
    decreases layers@,
{
    let ghost s = views(layers@);
    let ghost start = out@;
    let mut i: usize = 0;
    assert(s.take(0) =~= Seq::empty());
    assert(out@ =~= start + all_ids(s.take(0)));
    while i < layers.len()
        invariant
            i <= layers.len(),
            s == views(layers@),
            out@ == start + all_ids(s.take(i as int)),
        decreases layers.len() - i,
    {
        let layer = &layers[i];
        let ghost done = s.take(i as int);
        let ghost next = s.take(i + 1);
        assert(next.drop_last() =~= done);
        assert(next.last() == layer@);
        out.push(layer.id);
        match layer.children() {
            Some(children) => {
                collect_ids(children, out);
            },
            None => {
                assert(all_ids(layer@.children) =~= Seq::empty());
            },
        }
        i += 1;
        assert(out@ =~= start + all_ids(next));
    }
    assert(s.take(s.len() as int) =~= s);
}

impl<S: Scalar> Page<S> {
    pub open spec fn view(&self) -> PageView<S> {
        PageView { name: self.name@, layers: views(self.layers@), guides: self.guides@ }
    }

    /// An empty page.
    pub fn new(name: &str) -> (r: Self)
        ensures
            r@ == (PageView::<S> { name: name@, layers: Seq::empty(), guides: Seq::empty() }),
    {
        let r = Page { name: name.to_owned(), layers: Vec::new(), guides: Vec::new() };
        assert(views(r.layers@) =~= Seq::empty());
        r
    }

    /// The first layer with the given id, in document order.
    pub fn find(&self, id: LayerId) -> (r: Option<&Layer<S>>)
        ensures
            match r {
                Some(x) => crate::tree::find(self@.layers, id) == Some(x@),
                None => crate::tree::find(self@.layers, id) is None,
            },
    {
        find_in(&self.layers, id)
    }

    /// The first layer with the given id, in document order, to be changed.
    pub fn find_mut(&mut self, id: LayerId) -> (r: Option<&mut Layer<S>>)
        ensures
            match r {
                Some(x) => {
                    &&& crate::tree::find(old(self)@.layers, id) == Some(x@)
                    &&& final(self)@ == old(self)@.with_layers(
                        crate::tree::replace(old(self)@.layers, id, final(x)@),
                    )
                },
                None => {
                    &&& crate::tree::find(old(self)@.layers, id) is None
                    &&& *final(self) == *old(self)
                },
            },
    {
        find_mut_in(&mut self.layers, id)
    }

    /// The position of a layer's parent on the page.
    pub fn absolute_offset(&self, id: LayerId) -> (r: Option<Vec2<S>>)
        ensures
            r == offset_of(self@.layers, id, Vec2::spec_zero()),
    {
        offset_in(&self.layers, id, Vec2::zero())
    }

    /// The ids of every layer on the page, in document order.
    pub fn all_layer_ids(&self) -> (r: Vec<LayerId>)
        ensures
            r@ == all_ids(self@.layers),
    {
        let mut out: Vec<LayerId> = Vec::new();
        collect_ids(&self.layers, &mut out);
        assert(out@ =~= all_ids(self@.layers));
        out
    }

    /// Takes a layer off the page.
    pub fn remove(&mut self, id: LayerId) -> (r: Option<Layer<S>>)
        ensures
            final(self)@ == old(self)@.with_layers(without(old(self)@.layers, id)),
            match r {
                Some(x) => {
                    &&& crate::tree::home(old(self)@.layers, seq![id]) matches Some(p)
                    &&& {
                        let list = crate::tree::list_at(old(self)@.layers, p);
                        x@ == list[crate::tree::position(list, id)]
                    }
                },
                None => crate::tree::home(old(self)@.layers, seq![id]) is None,
            },
    {
        let ids: Vec<LayerId> = vec![id];
        assert(ids@ =~= seq![id]);
        match home_path(&self.layers, &ids) {
            Some(path) => {
                proof {
                    crate::tree::lemma_home(self@.layers, ids@);
                    assert(crate::tree::ints(path@).skip(0) =~= crate::tree::ints(path@));
                    assert(crate::tree::holds(
                        crate::tree::list_at(self@.layers, crate::tree::ints(path@)),
                        ids@[0],
                    ));
                }
                let list = list_mut(&mut self.layers, &path, 0);
                match position_of(list, id) {
                    Some(k) => Some(list.remove(k)),
                    None => vstd::pervasive::unreached(),
                }
            },
            None => None,
        }
    }

    /// A copy of its own.
    pub fn duplicate(&self) -> (r: Self)
        ensures
            r@ == self@,
    {
        Page {
            name: self.name.clone(),
            layers: duplicate_all(&self.layers),
            guides: copy_vec(&self.guides),
        }
    }
}

/// A colour of the palette, and what it is called.
#[derive(Debug, PartialEq)]
pub struct Swatch {
    pub color: Color32,
    pub name: String,
}

pub struct SwatchView {
    pub color: Color32,
    pub name: Seq<char>,
}

impl Swatch {
    pub open spec fn view(&self) -> SwatchView {
        SwatchView { color: self.color, name: self.name@ }
    }
}

pub open spec fn swatch_views(s: Seq<Swatch>) -> Seq<SwatchView> {
    Seq::new(s.len(), |i: int| s[i]@)
}

fn copy_swatches(s: &Vec<Swatch>) -> (r: Vec<Swatch>)
    ensures
        swatch_views(r@) == swatch_views(s@),
{
    let mut r: Vec<Swatch> = Vec::new();
    let mut i: usize = 0;
    while i < s.len()
        invariant
            i <= s.len(),
            r.len() == i,
            forall|k: int| 0 <= k < i ==> (#[trigger] r@[k])@ == s@[k]@,
        decreases s.len() - i,
    {
        r.push(Swatch { color: s[i].color, name: s[i].name.clone() });
        i += 1;
    }
    assert(swatch_views(r@) =~= swatch_views(s@));
    r
}

/// A document: its pages, of which one is shown, and its palette.
#[derive(Debug, PartialEq)]
pub struct Document<S> {
    pub name: String,
    pub pages: Vec<Page<S>>,
    pub active_page: usize,
    pub palette: Vec<Swatch>,
}

#[verifier::ext_equal]
pub struct DocumentView<S> {
    pub name: Seq<char>,
    pub pages: Seq<PageView<S>>,
    pub active_page: int,
    pub palette: Seq<SwatchView>,
}

pub open spec fn page_views<S: Scalar>(pages: Seq<Page<S>>) -> Seq<PageView<S>> {
    Seq::new(pages.len(), |i: int| pages[i]@)
}

/// The first layer with the given id on the pages from `k` on.
pub open spec fn find_from<S>(pages: Seq<PageView<S>>, id: LayerId, k: nat) -> Option<LayerView<S>>
    decreases pages.len() - k,
{
    if k >= pages.len() {
        None
    } else {
        match crate::tree::find(pages[k as int].layers, id) {
            Some(v) => Some(v),
            None => find_from(pages, id, k + 1),
        }
    }
}

impl<S> DocumentView<S> {
    /// Whether the shown page exists.
    pub open spec fn wf(self) -> bool {
        0 <= self.active_page < self.pages.len()
    }

    pub open spec fn page(self) -> PageView<S> {
        self.pages[self.active_page]
    }

    pub open spec fn with_page(self, page: PageView<S>) -> Self {
        DocumentView { pages: self.pages.update(self.active_page, page), ..self }
    }

    pub open spec fn with_layers(self, layers: Seq<LayerView<S>>) -> Self {
        self.with_page(self.page().with_layers(layers))
    }
}

impl<S: Scalar> Document<S> {
    pub open spec fn view(&self) -> DocumentView<S> {
        DocumentView {
            name: self.name@,
            pages: page_views(self.pages@),
            active_page: self.active_page as int,
            palette: swatch_views(self.palette@),
        }
    }

    pub open spec fn spec_new() -> DocumentView<S> {
        DocumentView {
            name: "Untitled"@,
            pages: seq![PageView { name: "Page 1"@, layers: Seq::empty(), guides: Seq::empty() }],
            active_page: 0,
            palette: Seq::empty(),
        }
    }

    /// A document with one empty page.
    pub fn new() -> (r: Self)
        ensures
            r@ == Self::spec_new(),
            r@.wf(),
    {
        let mut pages: Vec<Page<S>> = Vec::new();
        pages.push(Page::new("Page 1"));
        let r = Document {
            name: "Untitled".to_owned(),
            pages,
            active_page: 0,
            palette: Vec::new(),
        };
        assert(r@.pages =~= Self::spec_new().pages);
        assert(r@.palette =~= Seq::empty());
        r
    }

    /// The first layer with the given id, on any page.
    pub fn find(&self, id: LayerId) -> (r: Option<&Layer<S>>)
        ensures
            match find_from(self@.pages, id, 0) {
                Some(v) => r matches Some(x) && x@ == v,
                None => r is None,
            },
    {
        let mut k: usize = 0;
        while k < self.pages.len()
            invariant
                k <= self.pages.len(),
                find_from(self@.pages, id, 0) == find_from(self@.pages, id, k as nat),
            decreases self.pages.len() - k,
        {
            assert(self@.pages[k as int] == self.pages@[k as int]@);
            let found = self.pages[k].find(id);
            if found.is_some() {
                return found;
            }
            k += 1;
        }
        None
    }

    /// The page that is shown.
    pub fn active_page(&self) -> (r: &Page<S>)
        requires
            self@.wf(),
        ensures
            r@ == self@.page(),
    {
        &self.pages[self.active_page]
    }

    /// The page that is shown, to be changed.
    pub fn active_page_mut(&mut self) -> (r: &mut Page<S>)
        requires
            old(self)@.wf(),
        ensures
            r@ == old(self)@.page(),
            final(self)@ == old(self)@.with_page(final(r)@),
    {
        let k = self.active_page;
        &mut self.pages[k]
    }

    /// A copy of its own.
    pub fn duplicate(&self) -> (r: Self)
        ensures
            r@ == self@,
    {
        let mut pages: Vec<Page<S>> = Vec::new();
        let mut i: usize = 0;
        while i < self.pages.len()
            invariant
                i <= self.pages.len(),
                pages.len() == i,
                forall|k: int| 0 <= k < i ==> (#[trigger] pages@[k])@ == self.pages@[k]@,
            decreases self.pages.len() - i,
        {
            pages.push(self.pages[i].duplicate());
            i += 1;
        }
        let r = Document {
            name: self.name.clone(),
            pages,
            active_page: self.active_page,
            palette: copy_swatches(&self.palette),
        };
        assert(r@.pages =~= self@.pages);
        r
    }
}

} // verus!
