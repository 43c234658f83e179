//! Which layers of a list are drawn together, clipped by a mask in front of them.
use vstd::prelude::*;

use crate::hit_test::{mask_from, mask_of};
use crate::model::{group_views, views, Layer, LayerId, LayerView};
use crate::scalar::Scalar;

verus! {

broadcast use group_views;

/// What is drawn at a place of a list.
#[derive(Clone, Copy, Debug, PartialEq, Eq, Structural)]
pub enum Unit {
    /// Nothing: the layer is drawn with the mask that clips it.
    Clipped,
    /// The layers from `first` on, clipped by the mask at this place.
    Run { first: usize },
    /// The layer alone.
    Plain,
}

/// Where the layers begin that the mask at `m` clips, if those from `k` on are among them.
pub open spec fn run_from<S>(s: Seq<LayerView<S>>, m: int, k: int) -> int
    decreases k,
{
    if k > 0 && mask_from(s, k - 1) == Some(m) {
        run_from(s, m, k - 1)
    } else {
        k
    }
}

/// What is drawn at the `i`-th place.
pub open spec fn unit<S>(s: Seq<LayerView<S>>, i: int) -> Unit {
    let first = run_from(s, i, i);
    if mask_from(s, i) is Some {
        Unit::Clipped
    } else if s[i].is_mask && first < i {
        Unit::Run { first: first as usize }
    } else {
        Unit::Plain
    }
}

/// The ids of the layers from `first` up to `end`.
pub open spec fn run_ids<S>(s: Seq<LayerView<S>>, first: int, end: int) -> Seq<LayerId> {
    Seq::new((end - first) as nat, |j: int| s[first + j].id)
}

/// What is drawn at the `i`-th place.
pub fn unit_at<S: Scalar>(layers: &Vec<Layer<S>>, i: usize) -> (r: Unit)
    requires
        i < layers.len(),
    ensures
        r == unit(views(layers@), i as int),
        r matches Unit::Run { first } ==> first < i,
{
    let ghost s = views(layers@);
    if mask_of(layers, i).is_some() {
        return Unit::Clipped;
    }
    let mut k: usize = i;
    while k > 0
        invariant
            s == views(layers@),
            k <= i < layers.len(),
            run_from(s, i as int, i as int) == run_from(s, i as int, k as int),
        ensures
            k == run_from(s, i as int, i as int),
            k <= i,
        decreases k,
    {
        let clipped = match mask_of(layers, k - 1) {
            Some(m) => m == i,
            None => false,
        };
        if !clipped {
            break;
        }
        k -= 1;
    }
    if layers[i].is_mask && k < i {
        Unit::Run { first: k }
    } else {
        Unit::Plain
    }
}

/// The ids of the layers from `first` up to `end`.
pub fn ids_of_run<S: Scalar>(layers: &Vec<Layer<S>>, first: usize, end: usize) -> (r: Vec<LayerId>)
    requires
        first <= end <= layers.len(),
    ensures
        r@ == run_ids(views(layers@), first as int, end as int),
{
    let mut r: Vec<LayerId> = Vec::new();
    let mut i: usize = first;
    while i < end
        invariant
            first <= i <= end <= layers.len(),
            r@ == run_ids(views(layers@), first as int, i as int),
        decreases end - i,
    {
        r.push(layers[i].id);
        i += 1;
        assert(r@ =~= run_ids(views(layers@), first as int, i as int));
    }
    r
}

/// Every layer that a mask clips is drawn with that mask, and with no other.
pub proof fn law_a_clipped_layer_is_in_its_run<S>(s: Seq<LayerView<S>>, i: int)
    requires
        0 <= i < s.len(),
        mask_from(s, i) is Some,
    ensures
        ({
            let m = mask_from(s, i)->0;
            &&& i < m < s.len()
            &&& s[m].is_mask
            &&& run_from(s, m, m) <= i
        }),
{
    let m = mask_from(s, i)->0;
    lemma_clipped_between(s, i, m);
    lemma_run_reaches(s, m, i, m);
}

/// Between a clipped layer and its mask everything is clipped by it.
proof fn lemma_clipped_between<S>(s: Seq<LayerView<S>>, i: int, m: int)
    requires
        0 <= i < s.len(),
        mask_from(s, i) == Some(m),
    ensures
        i < m < s.len(),
        s[m].is_mask,
        forall|j: int| i <= j < m ==> #[trigger] mask_from(s, j) == Some(m),
    decreases s.len() - i,
{
    if !s[i + 1].is_mask {
        lemma_clipped_between(s, i + 1, m);
    }
}

/// The run of a mask begins no later than what it clips.
proof fn lemma_run_reaches<S>(s: Seq<LayerView<S>>, m: int, i: int, k: int)
    requires
        0 <= i <= k,
        forall|j: int| i <= j < k ==> #[trigger] mask_from(s, j) == Some(m),
    ensures
        run_from(s, m, k) <= i,
    decreases k,
{
    if k > i {
        assert(mask_from(s, k - 1) == Some(m));
        lemma_run_reaches(s, m, i, k - 1);
    } else {
        lemma_run_shrinks(s, m, k);
    }
}

/// A run begins no later than where it was looked for.
proof fn lemma_run_shrinks<S>(s: Seq<LayerView<S>>, m: int, k: int)
    ensures
        run_from(s, m, k) <= k,
    decreases k,
{
    if k > 0 && mask_from(s, k - 1) == Some(m) {
        lemma_run_shrinks(s, m, k - 1);
    }
}

} // verus!
