//! Textures that are kept from frame to frame, one for each layer, and when one is built anew.
use vstd::prelude::*;

use crate::alike::{layer_alike, layers_alike, same_layer, same_layers};
use crate::color::Color32;
use crate::geometry::{Pos2, Vec2};
use crate::halftone_fill::{halftone, sample};
use crate::model::{views, ColorAdjust, Layer, LayerId, LayerView};
use crate::scalar::{clamp_int, Scalar};
use crate::style::{HalftoneFill, NoiseFill};

verus! {

/// A texture and what it was built from.
#[derive(Debug, PartialEq)]
pub struct Entry<K, T> {
    pub id: LayerId,
    pub key: K,
    pub texture: T,
}

/// One texture for each layer that has one.
#[derive(Debug, PartialEq)]
pub struct TextureCache<K, T> {
    entries: Vec<Entry<K, T>>,
}

/// Whether no layer occurs twice.
pub open spec fn distinct<K, T>(s: Seq<Entry<K, T>>) -> bool {
    forall|i: int, j: int| 0 <= i < j < s.len() ==> (#[trigger] s[i]).id != (#[trigger] s[j]).id
}

/// Where a layer's texture is.
pub open spec fn at<K, T>(s: Seq<Entry<K, T>>, id: LayerId) -> int {
    choose|i: int| 0 <= i < s.len() && (#[trigger] s[i]).id == id
}

/// Whether a layer has a texture.
pub open spec fn held<K, T>(s: Seq<Entry<K, T>>, id: LayerId) -> bool {
    exists|i: int| 0 <= i < s.len() && (#[trigger] s[i]).id == id
}

/// The textures by their layers.
pub open spec fn as_map<K, T>(s: Seq<Entry<K, T>>) -> Map<LayerId, (K, T)> {
    Map::new(|id: LayerId| held(s, id), |id: LayerId| (s[at(s, id)].key, s[at(s, id)].texture))
}

/// The entry of a layer is the one that names it.
proof fn lemma_at<K, T>(s: Seq<Entry<K, T>>, i: int)
    requires
        distinct(s),
        0 <= i < s.len(),
    ensures
        held(s, s[i].id),
        at(s, s[i].id) == i,
{
    let id = s[i].id;
    assert(s[i].id == id);
    let k = at(s, id);
    assert(0 <= k < s.len() && s[k].id == id);
    if k < i {
        assert(s[k].id != s[i].id);
    }
    if i < k {
        assert(s[i].id != s[k].id);
    }
}

impl<K, T> TextureCache<K, T> {
    pub closed spec fn list(&self) -> Seq<Entry<K, T>> {
        self.entries@
    }

    /// The textures by their layers.
    pub open spec fn view(&self) -> Map<LayerId, (K, T)> {
        as_map(self.list())
    }

    pub open spec fn wf(&self) -> bool {
        distinct(self.list())
    }

    /// A cache without textures.
    pub fn new() -> (r: Self)
        ensures
            r.wf(),
            r@ == Map::<LayerId, (K, T)>::empty(),
    {
        let r = TextureCache { entries: Vec::new() };
        assert(r@ =~= Map::<LayerId, (K, T)>::empty());
        r
    }

    /// The place of a layer's texture.
    fn find(&self, id: LayerId) -> (r: Option<usize>)
        requires
            self.wf(),
        ensures
            match r {
                Some(i) => i < self.entries.len() && self.entries@[i as int].id == id
                    && self@.contains_key(id) && at(self.list(), id) == i,
                None => !self@.contains_key(id),
            },
    {
        let mut i: usize = 0;
        while i < self.entries.len()
            invariant
                self.wf(),
                i <= self.entries.len(),
                forall|k: int| 0 <= k < i ==> (#[trigger] self.entries@[k]).id != id,
            decreases self.entries.len() - i,
        {
            if self.entries[i].id == id {
                proof {
                    lemma_at(self.entries@, i as int);
                }
                return Some(i);
            }
            i += 1;
        }
        None
    }

    /// The texture of a layer and what it was built from.
    pub fn get(&self, id: LayerId) -> (r: Option<(&K, &T)>)
        requires
            self.wf(),
        ensures
            match r {
                Some((k, t)) => self@.contains_key(id) && self@[id] == (*k, *t),
                None => !self@.contains_key(id),
            },
    {
        match self.find(id) {
            Some(i) => Some((&self.entries[i].key, &self.entries[i].texture)),
            None => None,
        }
    }

    /// Keeps a texture for a layer, in place of the one it had.
    #[verifier::rlimit(50)]
    pub fn insert(&mut self, id: LayerId, key: K, texture: T)
        requires
            old(self).wf(),
        ensures
            final(self).wf(),
            final(self)@ == old(self)@.insert(id, (key, texture)),
    {
        let ghost before = self.entries@;
        let e = Entry { id, key, texture };
        match self.find(id) {
            Some(i) => {
                self.entries.set(i, e);
                proof {
                    let s = self.entries@;
                    assert(distinct(s));
                    assert(as_map(s) =~= as_map(before).insert(id, (key, texture))) by {
                        assert forall|x: LayerId| held(s, x) <==> held(before, x) || x == id by {
                            if held(s, x) {
                                let k = at(s, x);
                                assert(s[k].id == x);
                                assert(before[k].id == x);
                            }
                            if held(before, x) {
                                let k = at(before, x);
                                assert(before[k].id == x);
                                assert(s[k].id == x);
                            }
                            assert(s[i as int].id == id);
                        }
                        assert forall|x: LayerId| held(s, x) && x != id implies at(s, x) == at(
                            before,
                            x,
                        ) by {
                            let k = at(s, x);
                            assert(s[k].id == x);
                            assert(before[k].id == x);
                            lemma_at(before, k);
                        }
                        lemma_at(s, i as int);
                    }
                }
            },
            None => {
                self.entries.push(e);
                proof {
                    let s = self.entries@;
                    assert forall|i: int, j: int| 0 <= i < j < s.len() implies (#[trigger] s[i]).id
                        != (#[trigger] s[j]).id by {
                        assert(s[i] == before[i]);
                        if j < before.len() {
                            assert(s[j] == before[j]);
                        }
                    }
                    assert(as_map(s) =~= as_map(before).insert(id, (key, texture))) by {
                        assert forall|x: LayerId| held(s, x) <==> held(before, x) || x == id by {
                            if held(s, x) && x != id {
                                let k = at(s, x);
                                assert(s[k].id == x);
                                assert(before[k].id == x);
                            }
                            if held(before, x) {
                                let k = at(before, x);
                                assert(before[k].id == x);
                                assert(s[k].id == x);
                            }
                            assert(s[s.len() - 1].id == id);
                        }
                        assert forall|x: LayerId| held(before, x) implies at(s, x) == at(
                            before,
                            x,
                        ) by {
                            let k = at(before, x);
                            assert(before[k].id == x);
                            assert(s[k].id == x);
                            lemma_at(s, k);
                        }
                        lemma_at(s, s.len() - 1);
                    }
                }
            },
        }
    }

    /// Forgets the texture of a layer.
    pub fn remove(&mut self, id: LayerId)
        requires
            old(self).wf(),
        ensures
            final(self).wf(),
            final(self)@ == old(self)@.remove(id),
    {
        let ghost before = self.entries@;
        match self.find(id) {
            Some(i) => {
                self.entries.remove(i);
                proof {
                    let s = self.entries@;
                    assert(s =~= before.remove(i as int));
                    lemma_dropped(before, s, i as int);
                }
            },
            None => {
                assert(self@ =~= old(self)@.remove(id));
            },
        }
    }

    /// Forgets the textures of all layers that are not among `live`.
    pub fn evict_stale(&mut self, live: &Vec<LayerId>)
        requires
            old(self).wf(),
        ensures
            final(self).wf(),
            final(self)@ == old(self)@.restrict(live@.to_set()),
    {
        let ghost before = self.entries@;
        let ghost start = self@;
        let mut i: usize = 0;
        while i < self.entries.len()
            invariant
                self.wf(),
                i <= self.entries.len(),
                start == as_map(before),
                forall|k: int| 0 <= k < i ==> live@.contains((#[trigger] self.entries@[k]).id),
                self@.submap_of(start),
                forall|x: LayerId|
                    #[trigger] start.contains_key(x) && live@.contains(x) ==> self@.contains_key(x),
            decreases self.entries.len() - i,
        {
            if crate::grouping::has_id(live, self.entries[i].id) {
                i += 1;
            } else {
                let ghost s = self.entries@;
                self.entries.remove(i);
                proof {
                    lemma_dropped(s, self.entries@, i as int);
                    assert(self@ =~= as_map(s).remove(s[i as int].id));
                }
            }
        }
        proof {
            assert(self@ =~= start.restrict(live@.to_set())) by {
                assert forall|x: LayerId| self@.contains_key(x) implies live@.contains(x) by {
                    let k = at(self.list(), x);
                    assert(self.entries@[k].id == x);
                }
            }
        }
    }
}

/// Without one entry the map is without its layer.
proof fn lemma_dropped<K, T>(before: Seq<Entry<K, T>>, s: Seq<Entry<K, T>>, i: int)
    requires
        distinct(before),
        0 <= i < before.len(),
        s == before.remove(i),
    ensures
        distinct(s),
        as_map(s) == as_map(before).remove(before[i].id),
{
    let id = before[i].id;
    assert forall|a: int, b: int| 0 <= a < b < s.len() implies (#[trigger] s[a]).id != (
    #[trigger] s[b]).id by {
        let p = if a < i {
            a
        } else {
            a + 1
        };
        let q = if b < i {
            b
        } else {
            b + 1
        };
        assert(before[p].id != before[q].id);
    }
    assert(as_map(s) =~= as_map(before).remove(id)) by {
        assert forall|x: LayerId| held(s, x) <==> held(before, x) && x != id by {
            if held(s, x) {
                let k = at(s, x);
                assert(s[k].id == x);
                let p = if k < i {
                    k
                } else {
                    k + 1
                };
                assert(before[p].id == x);
                if p < i {
                    assert(before[p].id != before[i].id);
                } else {
                    assert(before[i].id != before[p].id);
                }
            }
            if held(before, x) && x != id {
                let p = at(before, x);
                assert(before[p].id == x);
                let k = if p < i {
                    p
                } else {
                    p - 1
                };
                assert(s[k].id == x);
            }
        }
        assert forall|x: LayerId| held(s, x) implies s[at(s, x)] == before[at(before, x)] by {
            let k = at(s, x);
            assert(s[k].id == x);
            let p = if k < i {
                k
            } else {
                k + 1
            };
            assert(before[p].id == x);
            lemma_at(before, p);
        }
    }
}

/// The sides of textures are multiples of this.
pub const NOISE_TEXTURE_QUANTUM: u32 = 32;

/// No side of a texture is longer.
pub const NOISE_TEXTURE_MAX: u32 = 1024;

/// The side of the texture for a length on the screen.
pub open spec fn texture_side<S: Scalar>(length: S) -> int {
    let v = clamp_int(
        clamp_int(length.spec_ceiled().spec_to_int(), i64::MIN as int, i64::MAX as int),
        1,
        u32::MAX as int,
    );
    let side = (v + 31) / 32 * 32;
    if side < 1024 {
        side
    } else {
        1024
    }
}

/// The side of the texture for a length on the screen: enough pixels, in coarse steps, so that a
/// small change of size does not call for another texture.
pub fn quantize<S: Scalar>(length: S) -> (r: u32)
    ensures
        r == texture_side(length),
        0 < r <= NOISE_TEXTURE_MAX,
        r % NOISE_TEXTURE_QUANTUM == 0,
{
    let c: i64 = length.ceiled().to_i64();
    let v: i64 = if c < 1 {
        1
    } else if c > 4294967295 {
        4294967295
    } else {
        c
    };
    let side: i64 = (v + 31) / 32 * 32;
    if side < 1024 {
        side as u32
    } else {
        1024
    }
}

fn same_size<S: Scalar>(a: Vec2<S>, b: Vec2<S>) -> (r: bool)
    ensures
        r == (a.x.spec_same(b.x) && a.y.spec_same(b.y)),
{
    a.x.is_same(b.x) && a.y.is_same(b.y)
}

/// What an image's texture was built from.
#[derive(Debug, PartialEq)]
pub struct ImageKey<S> {
    pub version: u64,
    pub color_adjust: ColorAdjust<S>,
}

impl<S: Scalar> ImageKey<S> {
    /// Whether a texture built from the one serves for the other.
    pub open spec fn spec_serves(self, other: Self) -> bool {
        self.version == other.version && self.color_adjust.hue.spec_same(other.color_adjust.hue)
            && self.color_adjust.saturation.spec_same(other.color_adjust.saturation)
            && self.color_adjust.brightness.spec_same(other.color_adjust.brightness)
            && self.color_adjust.contrast.spec_same(other.color_adjust.contrast)
    }

    /// Whether a texture built from the one serves for the other.
    pub fn serves(&self, other: &Self) -> (r: bool)
        ensures
            r == self.spec_serves(*other),
    {
        self.version == other.version && self.color_adjust.hue.is_same(other.color_adjust.hue)
            && self.color_adjust.saturation.is_same(other.color_adjust.saturation)
            && self.color_adjust.brightness.is_same(other.color_adjust.brightness)
            && self.color_adjust.contrast.is_same(other.color_adjust.contrast)
    }
}

/// What a texture of grain was built from.
#[derive(Debug, PartialEq)]
pub struct NoiseKey<S> {
    pub fill: NoiseFill<S>,
    pub local_size: Vec2<S>,
    pub pixel_size: (u32, u32),
}

impl<S: Scalar> NoiseKey<S> {
    /// Whether a texture built from the one serves for the other.
    pub open spec fn spec_serves(self, other: Self) -> bool {
        self.fill.base == other.fill.base
            && self.fill.seed == other.fill.seed && self.fill.scale.spec_same(other.fill.scale)
            && self.fill.intensity.spec_same(other.fill.intensity) && self.local_size.x.spec_same(
            other.local_size.x,
        ) && self.local_size.y.spec_same(other.local_size.y) && self.pixel_size == other.pixel_size
    }

    /// Whether a texture built from the one serves for the other.
    pub fn serves(&self, other: &Self) -> (r: bool)
        ensures
            r == self.spec_serves(*other),
    {
        self.fill.base == other.fill.base && self.fill.seed
            == other.fill.seed && self.fill.scale.is_same(other.fill.scale)
            && self.fill.intensity.is_same(other.fill.intensity) && same_size(
            self.local_size,
            other.local_size,
        ) && self.pixel_size.0 == other.pixel_size.0 && self.pixel_size.1 == other.pixel_size.1
    }
}

/// What a texture of dots was built from.
#[derive(Debug, PartialEq)]
pub struct HalftoneKey<S> {
    pub fill: HalftoneFill<S>,
    pub local_size: Vec2<S>,
    pub pixel_size: (u32, u32),
}

impl<S: Scalar> HalftoneKey<S> {
    /// Whether a texture built from the one serves for the other.
    pub open spec fn spec_serves(self, other: Self) -> bool {
        self.fill.background == other.fill.background && self.fill.dot == other.fill.dot
            && self.fill.scale.spec_same(other.fill.scale) && self.fill.coverage.spec_same(
            other.fill.coverage,
        ) && self.local_size.x.spec_same(other.local_size.x) && self.local_size.y.spec_same(
            other.local_size.y,
        ) && self.pixel_size == other.pixel_size
    }

    /// Whether a texture built from the one serves for the other.
    pub fn serves(&self, other: &Self) -> (r: bool)
        ensures
            r == self.spec_serves(*other),
    {
        self.fill.background == other.fill.background && self.fill.dot == other.fill.dot
            && self.fill.scale.is_same(other.fill.scale) && self.fill.coverage.is_same(
            other.fill.coverage,
        ) && same_size(self.local_size, other.local_size) && self.pixel_size.0
            == other.pixel_size.0 && self.pixel_size.1 == other.pixel_size.1
    }
}

/// Whether two lists of bytes are the same.
pub fn same_bytes(a: &Vec<u8>, b: &Vec<u8>) -> (r: bool)
    ensures
        r == (a@ == b@),
{
    if a.len() != b.len() {
        return false;
    }
    let mut i: usize = 0;
    while i < a.len()
        invariant
            a.len() == b.len(),
            i <= a.len(),
            forall|k: int| 0 <= k < i ==> a@[k] == b@[k],
        decreases a.len() - i,
    {
        if a[i] != b[i] {
            assert(a@[i as int] != b@[i as int]);
            return false;
        }
        i += 1;
    }
    assert(a@ =~= b@);
    true
}

/// What a repeated image's texture was built from.
#[derive(Debug, PartialEq)]
pub struct PatternKey {
    pub encoded: Vec<u8>,
}

/// What the texture of layers clipped by a mask was built from.
#[derive(Debug, PartialEq)]
pub struct MaskKey<S> {
    pub mask: Layer<S>,
    pub content: Vec<Layer<S>>,
}

/// The textures of image layers.
pub type ImageTextureCache<S, T> = TextureCache<ImageKey<S>, T>;

/// The textures of layers clipped by masks, by the mask.
pub type MaskedGroupTextureCache<S, T> = TextureCache<MaskKey<S>, T>;

/// The textures of grain.
pub type NoiseTextureCache<S, T> = TextureCache<NoiseKey<S>, T>;

/// The textures of dots.
pub type HalftoneTextureCache<S, T> = TextureCache<HalftoneKey<S>, T>;

/// The textures of repeated images.
pub type PatternTextureCache<T> = TextureCache<PatternKey, T>;

/// The textures of shadows, built from a layer.
pub type ShadowTextureCache<S, T> = TextureCache<Layer<S>, T>;

impl<S: Scalar, T> TextureCache<ImageKey<S>, T> {
    /// The texture of a layer, if it was built from what is asked for.
    pub fn current(&self, id: LayerId, key: &ImageKey<S>) -> (r: Option<&T>)
        requires
            self.wf(),
        ensures
            match r {
                Some(t) => self@.contains_key(id) && self@[id].0.spec_serves(*key) && self@[id].1
                    == *t,
                None => !(self@.contains_key(id) && self@[id].0.spec_serves(*key)),
            },
    {
        match self.get(id) {
            Some((k, t)) => if k.serves(key) {
                Some(t)
            } else {
                None
            },
            None => None,
        }
    }
}

impl<S: Scalar, T> TextureCache<NoiseKey<S>, T> {
    /// The texture of a layer, if it was built from what is asked for.
    pub fn current(&self, id: LayerId, key: &NoiseKey<S>) -> (r: Option<&T>)
        requires
            self.wf(),
        ensures
            match r {
                Some(t) => self@.contains_key(id) && self@[id].0.spec_serves(*key) && self@[id].1
                    == *t,
                None => !(self@.contains_key(id) && self@[id].0.spec_serves(*key)),
            },
    {
        match self.get(id) {
            Some((k, t)) => if k.serves(key) {
                Some(t)
            } else {
                None
            },
            None => None,
        }
    }
}

impl<S: Scalar, T> TextureCache<HalftoneKey<S>, T> {
    /// The texture of a layer, if it was built from what is asked for.
    pub fn current(&self, id: LayerId, key: &HalftoneKey<S>) -> (r: Option<&T>)
        requires
            self.wf(),
        ensures
            match r {
                Some(t) => self@.contains_key(id) && self@[id].0.spec_serves(*key) && self@[id].1
                    == *t,
                None => !(self@.contains_key(id) && self@[id].0.spec_serves(*key)),
            },
    {
        match self.get(id) {
            Some((k, t)) => if k.serves(key) {
                Some(t)
            } else {
                None
            },
            None => None,
        }
    }
}

impl<T> TextureCache<PatternKey, T> {
    /// The texture of a layer, if it was built from the given bytes.
    pub fn current(&self, id: LayerId, encoded: &Vec<u8>) -> (r: Option<&T>)
        requires
            self.wf(),
        ensures
            match r {
                Some(t) => self@.contains_key(id) && self@[id].0.encoded@ == encoded@ && self@[id].1
                    == *t,
                None => !(self@.contains_key(id) && self@[id].0.encoded@ == encoded@),
            },
    {
        match self.get(id) {
            Some((k, t)) => if same_bytes(&k.encoded, encoded) {
                Some(t)
            } else {
                None
            },
            None => None,
        }
    }
}

impl<S: Scalar> MaskKey<S> {
    /// Whether a texture built from the one serves for the other: the mask and each layer that
    /// it clips are alike.
    pub open spec fn spec_serves(self, other: Self) -> bool {
        same_layer(self.mask@, other.mask@) && same_layers(
            views(self.content@),
            views(other.content@),
        )
    }

    /// Whether a texture built from the one serves for the other.
    pub fn serves(&self, other: &Self) -> (r: bool)
        ensures
            r == self.spec_serves(*other),
    {
        layer_alike(&self.mask, &other.mask) && layers_alike(&self.content, &other.content)
    }
}

impl<S: Scalar, T> TextureCache<MaskKey<S>, T> {
    /// The texture of a mask, if it was built from what is asked for.
    pub fn current(&self, key: &MaskKey<S>) -> (r: Option<&T>)
        requires
            self.wf(),
        ensures
            match r {
                Some(t) => self@.contains_key(key.mask.id) && self@[key.mask.id].0.spec_serves(*key)
                    && self@[key.mask.id].1 == *t,
                None => !(self@.contains_key(key.mask.id) && self@[key.mask.id].0.spec_serves(
                    *key,
                )),
            },
    {
        match self.get(key.mask.id) {
            Some((k, t)) => if k.serves(key) {
                Some(t)
            } else {
                None
            },
            None => None,
        }
    }
}

/// Whether a layer has a shadow, outside or inside.
pub open spec fn casts_shadow<S: Scalar>(layer: LayerView<S>) -> bool {
    layer.style.shadows.len() > 0 || layer.style.inner_shadows.len() > 0
}

impl<S: Scalar, T> TextureCache<Layer<S>, T> {
    /// The shadows of a layer, if they were built from it as it is now. Those of a layer that has
    /// none any more are dropped.
    pub fn current(&mut self, layer: &Layer<S>) -> (r: Option<&T>)
        requires
            old(self).wf(),
        ensures
            final(self).wf(),
            final(self)@ == (if casts_shadow(layer@) {
                old(self)@
            } else {
                old(self)@.remove(layer.id)
            }),
            match r {
                Some(t) => casts_shadow(layer@) && old(self)@.contains_key(layer.id) && same_layer(
                    old(self)@[layer.id].0@,
                    layer@,
                ) && old(self)@[layer.id].1 == *t,
                None => !(casts_shadow(layer@) && old(self)@.contains_key(layer.id) && same_layer(
                    old(self)@[layer.id].0@,
                    layer@,
                )),
            },
    {
        if layer.style.shadows.len() == 0 && layer.style.inner_shadows.len() == 0 {
            self.remove(layer.id);
            return None;
        }
        match self.get(layer.id) {
            Some((k, t)) => if layer_alike(k, layer) {
                Some(t)
            } else {
                None
            },
            None => None,
        }
    }
}

/// The point of a shape that the middle of a texture's pixel shows.
pub open spec fn texel<S: Scalar>(i: int, j: int, w: int, h: int, size: Vec2<S>) -> Pos2<S> {
    let half = S::spec_ratio(1, 2);
    Pos2 {
        x: S::spec_ratio(i, 1).spec_plus(half).spec_over(S::spec_ratio(w, 1)).spec_times(size.x),
        y: S::spec_ratio(j, 1).spec_plus(half).spec_over(S::spec_ratio(h, 1)).spec_times(size.y),
    }
}

/// The point of a shape that the middle of a texture's pixel shows.
pub fn texel_point<S: Scalar>(i: u32, j: u32, w: u32, h: u32, size: Vec2<S>) -> (r: Pos2<S>)
    ensures
        r == texel(i as int, j as int, w as int, h as int, size),
{
    let half = S::ratio(1, 2);
    Pos2 {
        x: S::of_count(i as u64).plus(half).over(S::of_count(w as u64)).times(size.x),
        y: S::of_count(j as u64).plus(half).over(S::of_count(h as u64)).times(size.y),
    }
}

/// The `k`-th pixel of a texture of dots: the channels of the sample, taken as channels that are
/// not multiplied by its alpha.
pub open spec fn dot_pixel<S: Scalar>(key: HalftoneKey<S>, k: int) -> Color32 {
    let w = key.pixel_size.0 as int;
    let c = halftone(
        key.fill,
        texel(k % w, k / w, w, key.pixel_size.1 as int, key.local_size),
        S::spec_ratio(1, 1),
    );
    Color32::spec_unmultiplied(c.r, c.g, c.b, c.a)
}

/// The pixels of a texture of dots, row by row.
pub fn halftone_pixels<S: Scalar>(key: &HalftoneKey<S>) -> (r: Vec<Color32>)
    requires
        0 < key.pixel_size.0 <= NOISE_TEXTURE_MAX,
        0 < key.pixel_size.1 <= NOISE_TEXTURE_MAX,
    ensures
        r@ == Seq::new(
            (key.pixel_size.0 * key.pixel_size.1) as nat,
            |k: int| dot_pixel(*key, k),
        ),
{
    let w: u32 = key.pixel_size.0;
    let h: u32 = key.pixel_size.1;
    let mut r: Vec<Color32> = Vec::new();
    let mut j: u32 = 0;
    assert(r@ =~= Seq::new(0, |k: int| dot_pixel(*key, k)));
    assert(0 * w == 0) by (nonlinear_arith);
    while j < h
        invariant
            w == key.pixel_size.0,
            h == key.pixel_size.1,
            0 < w <= NOISE_TEXTURE_MAX,
            j <= h,
            r@ == Seq::new((j * w) as nat, |k: int| dot_pixel(*key, k)),
        decreases h - j,
    {
        let mut i: u32 = 0;
        while i < w
            invariant
                w == key.pixel_size.0,
                h == key.pixel_size.1,
                0 < w <= NOISE_TEXTURE_MAX,
                j < h,
                i <= w,
                r@ == Seq::new((j * w + i) as nat, |k: int| dot_pixel(*key, k)),
            decreases w - i,
        {
            let dot = sample(&key.fill, texel_point(i, j, w, h, key.local_size), S::ratio(1, 1));
            let c = Color32::from_rgba_unmultiplied(dot.r, dot.g, dot.b, dot.a);
            proof {
                let k = j * w + i;
                assert(k % (w as int) == i && k / (w as int) == j) by (nonlinear_arith)
                    requires
                        k == j * w + i,
                        0 <= i < w,
                        0 <= j,
                ;
                assert(k >= 0) by (nonlinear_arith)
                    requires
                        k == j * w + i,
                        0 <= i,
                        0 <= j,
                        0 <= w,
                ;
                assert(c == dot_pixel(*key, k));
            }
            r.push(c);
            i += 1;
            assert(r@ =~= Seq::new((j * w + i) as nat, |k: int| dot_pixel(*key, k)));
        }
        assert(j * w + w == (j + 1) * w) by (nonlinear_arith);
        j += 1;
    }
    assert(h * w == w * h) by (nonlinear_arith);
    r
}

} // verus!
