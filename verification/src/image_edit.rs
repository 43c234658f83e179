//! Pixel selections of an image that is being edited.
use vstd::prelude::*;

use crate::geometry::{Pos2, Rect};
use crate::scalar::{clamped, Scalar};

verus! {

/// The pixel of an image of `size` pixels across `extent`, at `rel` from its start; outside, the
/// nearest one.
pub open spec fn pixel_along<S: Scalar>(rel: S, extent: S, size: u32) -> int {
    let f = rel.spec_over(extent).spec_times(S::spec_ratio(size as int, 1)).spec_floored();
    crate::scalar::clamp_int(
        crate::scalar::spec_clamped(
            f,
            S::spec_ratio(0, 1),
            S::spec_ratio(size - 1, 1),
        ).spec_to_int(),
        0,
        size - 1,
    )
}

/// The pixel along one axis.
fn pixel_at<S: Scalar>(rel: S, extent: S, size: u32) -> (r: u32)
    requires
        size > 0,
    ensures
        r == pixel_along(rel, extent, size),
        r < size,
{
    let f = rel.over(extent).times(S::of_count(size as u64)).floored();
    let i: i64 = clamped(f, S::ratio(0, 1), S::of_count((size - 1) as u64)).to_i64();
    if i < 0 {
        0
    } else if i >= size as i64 {
        size - 1
    } else {
        i as u32
    }
}

/// Whether an image has pixels and a place on the page.
pub open spec fn has_area<S: Scalar>(bounds: Rect<S>, width: u32, height: u32) -> bool {
    &&& width > 0
    &&& height > 0
    &&& !bounds.spec_width().spec_le(S::spec_ratio(0, 1))
    &&& !bounds.spec_height().spec_le(S::spec_ratio(0, 1))
}

/// The pixel of an image under a point of the page; outside the image, its nearest pixel.
pub fn doc_to_pixel<S: Scalar>(doc_pos: Pos2<S>, bounds_doc: Rect<S>, width: u32, height: u32) -> (r:
    Option<(u32, u32)>)
    ensures
        r is Some <==> has_area(bounds_doc, width, height),
        r matches Some(p) ==> {
            let rel = doc_pos.spec_from(bounds_doc.min);
            &&& p.0 == pixel_along(rel.x, bounds_doc.spec_width(), width)
            &&& p.1 == pixel_along(rel.y, bounds_doc.spec_height(), height)
            &&& p.0 < width
            &&& p.1 < height
        },
{
    if width == 0 || height == 0 || bounds_doc.width().is_le(S::ratio(0, 1))
        || bounds_doc.height().is_le(S::ratio(0, 1)) {
        return None;
    }
    let rel = doc_pos.from(bounds_doc.min);
    Some(
        (
            pixel_at(rel.x, bounds_doc.width(), width),
            pixel_at(rel.y, bounds_doc.height(), height),
        ),
    )
}

pub open spec fn min_u32(a: u32, b: u32) -> u32 {
    if a <= b {
        a
    } else {
        b
    }
}

pub open spec fn max_u32(a: u32, b: u32) -> u32 {
    if a <= b {
        b
    } else {
        a
    }
}

/// Whether a value is between two others, in either order.
pub open spec fn between(v: int, a: u32, b: u32) -> bool {
    min_u32(a, b) <= v <= max_u32(a, b)
}

/// The mask of an image, row by row, with exactly the pixels from `(x0, y0)` to `(x1, y1)` set.
pub open spec fn rectangle(width: u32, height: u32, x0: u32, y0: u32, x1: u32, y1: u32) -> Seq<
    bool,
> {
    Seq::new(
        (width * height) as nat,
        |i: int| between(i % (width as int), x0, x1) && between(i / (width as int), y0, y1),
    )
}

/// The mask of a rectangle of pixels, both ends included, given by any two opposite corners.
pub fn rect_mask(width: u32, height: u32, x0: u32, y0: u32, x1: u32, y1: u32) -> (r: Vec<bool>)
    requires
        x0 < width,
        x1 < width,
        y0 < height,
        y1 < height,
        width * height <= usize::MAX,
    ensures
        r@ == rectangle(width, height, x0, y0, x1, y1),
{
    let (xlo, xhi) = if x0 <= x1 {
        (x0, x1)
    } else {
        (x1, x0)
    };
    let (ylo, yhi) = if y0 <= y1 {
        (y0, y1)
    } else {
        (y1, y0)
    };
    let mut mask: Vec<bool> = Vec::new();
    let mut y: u32 = 0;
    let ghost want = rectangle(width, height, x0, y0, x1, y1);
    assert(0 * width == 0);
    while y < height
        invariant
            y <= height,
            width > 0,
            xlo == min_u32(x0, x1),
            xhi == max_u32(x0, x1),
            ylo == min_u32(y0, y1),
            yhi == max_u32(y0, y1),
            want == rectangle(width, height, x0, y0, x1, y1),
            width * height <= usize::MAX,
            mask.len() == y * width,
            forall|i: int| 0 <= i < mask.len() ==> mask@[i] == want[i],
        decreases height - y,
    {
        let mut x: u32 = 0;
        assert((y + 1) * width <= height * width) by (nonlinear_arith)
            requires
                y < height,
        ;
        assert((y + 1) * width == y * width + width) by (nonlinear_arith);
        while x < width
            invariant
                x <= width,
                y < height,
                width > 0,
                xlo == min_u32(x0, x1),
                xhi == max_u32(x0, x1),
                ylo == min_u32(y0, y1),
                yhi == max_u32(y0, y1),
                want == rectangle(width, height, x0, y0, x1, y1),
                y * width + width <= height * width,
                mask.len() == y * width + x,
                forall|i: int| 0 <= i < mask.len() ==> mask@[i] == want[i],
            decreases width - x,
        {
            let set = xlo <= x && x <= xhi && ylo <= y && y <= yhi;
            proof {
                let i = y * width + x;
                vstd::arithmetic::div_mod::lemma_fundamental_div_mod_converse(
                    i,
                    width as int,
                    y as int,
                    x as int,
                );
                assert(width * height == height * width) by (nonlinear_arith);
                assert(want[i] == set);
            }
            mask.push(set);
            x += 1;
        }
        y += 1;
    }
    assert(width * height == height * width) by (nonlinear_arith);
    assert(mask@ =~= want);
    mask
}

/// `base` with the pixels of `delta` added, or with `subtract` taken away.
pub open spec fn merged(base: Seq<bool>, delta: Seq<bool>, subtract: bool) -> Seq<bool> {
    Seq::new(
        base.len(),
        |i: int|
            if i < delta.len() && delta[i] {
                !subtract
            } else {
                base[i]
            },
    )
}

/// Adds the pixels of `delta` to `base`, or with `subtract` takes them away.
pub fn merge_mask(base: &mut Vec<bool>, delta: &[bool], subtract: bool)
    ensures
        final(base)@ == merged(old(base)@, delta@, subtract),
{
    let ghost start = base@;
    let mut i: usize = 0;
    while i < base.len() && i < delta.len()
        invariant
            i <= base.len(),
            i <= delta.len(),
            base.len() == start.len(),
            forall|k: int| 0 <= k < i ==> base@[k] == merged(start, delta@, subtract)[k],
            forall|k: int| i <= k < start.len() ==> base@[k] == start[k],
        decreases base.len() - i,
    {
        if delta[i] {
            base.set(i, !subtract);
        }
        i += 1;
    }
    assert(base@ =~= merged(start, delta@, subtract));
}

/// Whether `b` is the tightest box, both ends included, around the set pixels of the mask.
pub open spec fn is_bbox(mask: Seq<bool>, width: u32, b: (u32, u32, u32, u32)) -> bool {
    let w = width as int;
    &&& forall|i: int|
        0 <= i < mask.len() && #[trigger] mask[i] ==> b.0 <= i % w <= b.2 && b.1 <= i / w <= b.3
    &&& exists|i: int| 0 <= i < mask.len() && #[trigger] mask[i] && i % w == b.0
    &&& exists|i: int| 0 <= i < mask.len() && #[trigger] mask[i] && i / w == b.1
    &&& exists|i: int| 0 <= i < mask.len() && #[trigger] mask[i] && i % w == b.2
    &&& exists|i: int| 0 <= i < mask.len() && #[trigger] mask[i] && i / w == b.3
}

/// Whether no pixel is set.
pub open spec fn is_clear(mask: Seq<bool>) -> bool {
    forall|i: int| 0 <= i < mask.len() ==> !mask[i]
}

/// The tightest box, both ends included, around the set pixels of a mask `width` pixels wide;
/// none where nothing is set.
#[verifier::rlimit(50)]
pub fn mask_bbox(mask: &[bool], width: u32) -> (r: Option<(u32, u32, u32, u32)>)
    requires
        is_clear(mask@) || (width > 0 && mask.len() <= u32::MAX),
    ensures
        match r {
            Some(b) => is_bbox(mask@, width, b),
            None => is_clear(mask@),
        },
{
    let mut r: Option<(u32, u32, u32, u32)> = None;
    let mut i: usize = 0;
    assert(mask@.take(0) =~= Seq::empty());
    while i < mask.len()
        invariant
            i <= mask.len(),
            is_clear(mask@) || (width > 0 && mask.len() <= u32::MAX),
            match r {
                Some(b) => is_bbox(mask@.take(i as int), width, b),
                None => is_clear(mask@.take(i as int)),
            },
        decreases mask.len() - i,
    {
        let ghost front = mask@.take(i as int);
        let ghost next = mask@.take(i + 1);
        assert(forall|k: int| 0 <= k < i ==> next[k] == front[k]);
        if mask[i] {
            assert(!is_clear(mask@));
            let x: u32 = (i as u32) % width;
            let y: u32 = (i as u32) / width;
            assert(next[i as int]);
            match r {
                Some((x0, y0, x1, y1)) => {
                    let b = (
                        if x < x0 {
                            x
                        } else {
                            x0
                        },
                        if y < y0 {
                            y
                        } else {
                            y0
                        },
                        if x > x1 {
                            x
                        } else {
                            x1
                        },
                        if y > y1 {
                            y
                        } else {
                            y1
                        },
                    );
                    proof {
                        let w = width as int;
                        let a0 = choose|k: int| 0 <= k < front.len() && #[trigger] front[k] && k % w == x0;
                        let a1 = choose|k: int| 0 <= k < front.len() && #[trigger] front[k] && k / w == y0;
                        let a2 = choose|k: int| 0 <= k < front.len() && #[trigger] front[k] && k % w == x1;
                        let a3 = choose|k: int| 0 <= k < front.len() && #[trigger] front[k] && k / w == y1;
                        assert(next[a0] && next[a1] && next[a2] && next[a3]);
                        assert forall|k: int|
                            0 <= k < next.len() && #[trigger] next[k] implies b.0 <= k % w <= b.2
                            && b.1 <= k / w <= b.3 by {
                            if k < i {
                                assert(front[k]);
                            }
                        }
                        assert(is_bbox(next, width, b));
                    }
                    r = Some(b);
                },
                None => {
                    proof {
                        let w = width as int;
                        assert forall|k: int|
                            0 <= k < next.len() && #[trigger] next[k] implies x <= k % w <= x && y
                            <= k / w <= y by {
                            if k < i {
                                assert(front[k]);
                            }
                        }
                        assert(is_bbox(next, width, (x, y, x, y)));
                    }
                    r = Some((x, y, x, y));
                },
            }
        } else {
            proof {
                if let Some(b) = r {
                    let w = width as int;
                    let a0 = choose|k: int| 0 <= k < front.len() && #[trigger] front[k] && k % w == b.0;
                    let a1 = choose|k: int| 0 <= k < front.len() && #[trigger] front[k] && k / w == b.1;
                    let a2 = choose|k: int| 0 <= k < front.len() && #[trigger] front[k] && k % w == b.2;
                    let a3 = choose|k: int| 0 <= k < front.len() && #[trigger] front[k] && k / w == b.3;
                    assert(next[a0] && next[a1] && next[a2] && next[a3]);
                    assert forall|k: int|
                        0 <= k < next.len() && #[trigger] next[k] implies b.0 <= k % w <= b.2
                        && b.1 <= k / w <= b.3 by {
                        assert(front[k]);
                    }
                    assert(is_bbox(next, width, b));
                } else {
                    assert(is_clear(next));
                }
            }
        }
        i += 1;
    }
    assert(mask@.take(i as int) =~= mask@);
    r
}

/// A mask has at most one tightest box.
pub proof fn law_the_box_of_a_mask_is_unique(
    mask: Seq<bool>,
    width: u32,
    a: (u32, u32, u32, u32),
    b: (u32, u32, u32, u32),
)
    requires
        width > 0,
        is_bbox(mask, width, a),
        is_bbox(mask, width, b),
    ensures
        a == b,
{
}

/// The box around a rectangle of pixels is that rectangle.
pub proof fn law_the_box_of_a_rectangle_is_the_rectangle(
    width: u32,
    height: u32,
    x0: u32,
    y0: u32,
    x1: u32,
    y1: u32,
)
    requires
        x0 < width,
        x1 < width,
        y0 < height,
        y1 < height,
    ensures
        is_bbox(
            rectangle(width, height, x0, y0, x1, y1),
            width,
            (min_u32(x0, x1), min_u32(y0, y1), max_u32(x0, x1), max_u32(y0, y1)),
        ),
{
    let m = rectangle(width, height, x0, y0, x1, y1);
    let w = width as int;
    let lo = min_u32(y0, y1) * w + min_u32(x0, x1);
    let hi = max_u32(y0, y1) * w + max_u32(x0, x1);
    vstd::arithmetic::div_mod::lemma_fundamental_div_mod_converse(
        lo,
        w,
        min_u32(y0, y1) as int,
        min_u32(x0, x1) as int,
    );
    vstd::arithmetic::div_mod::lemma_fundamental_div_mod_converse(
        hi,
        w,
        max_u32(y0, y1) as int,
        max_u32(x0, x1) as int,
    );
    assert(0 <= lo < width * height) by (nonlinear_arith)
        requires
            lo == min_u32(y0, y1) * w + min_u32(x0, x1),
            w == width,
            min_u32(y0, y1) < height,
            min_u32(x0, x1) < width,
    ;
    assert(0 <= hi < width * height) by (nonlinear_arith)
        requires
            hi == max_u32(y0, y1) * w + max_u32(x0, x1),
            w == width,
            max_u32(y0, y1) < height,
            max_u32(x0, x1) < width,
    ;
    assert(m[lo]);
    assert(m[hi]);
}

/// Taking a selection away again undoes adding it, where the two did not overlap.
pub proof fn law_subtracting_undoes_adding(base: Seq<bool>, delta: Seq<bool>)
    requires
        forall|i: int|
            0 <= i < base.len() && i < delta.len() ==> !(#[trigger] base[i] && delta[i]),
    ensures
        merged(merged(base, delta, false), delta, true) == base,
{
    assert(merged(merged(base, delta, false), delta, true) =~= base);
}

} // verus!
