//! Colours between colours: gradients, dots and the edges of glyphs.
use vstd::prelude::*;

use crate::color::Color32;
use crate::fixed::Fixed;
use crate::geometry::{Pos2, Rect};
use crate::glyphs::{blended, copies_of_glyph, covered, ink_alpha, pixel_of_glyph, slant};
use crate::halftone_fill::{cell, dot_center, dot_weight, halftone, smooth, stagger};
use crate::plane::{lemma_times_one, near, near_box, near_point};
use crate::scalar::Scalar;
use crate::shading::{
    channel_between, color_between, flat_color, gradient_color, gradient_place, stop_color, Ground,
};
use crate::style::{GradientKind, GradientStop, HalftoneFill, PaintView};
use crate::texture_cache::texture_side;

verus! {

/// A channel between two others is as near to each as the fraction says, to the nearest whole number:
/// the one at none, the other at all of the way, and never outside of them.
pub proof fn law_channels_are_mixed(a: u8, b: u8, f: Fixed)
    requires
        0 <= f.raw <= 65536,
    ensures
        -32768 <= channel_between(a, b, f) * 65536 - (a * (65536 - f.raw) + b * f.raw) <= 32768,
        f.raw == 0 ==> channel_between(a, b, f) == a,
        f.raw == 65536 ==> channel_between(a, b, f) == b,
        a <= b ==> a <= channel_between(a, b, f) <= b,
        b <= a ==> b <= channel_between(a, b, f) <= a,
{
    let x = Fixed::spec_ratio(a as int, 1);
    let y = Fixed::spec_ratio(b as int, 1);
    let m = a as int;
    let n = b as int;
    let k = f.raw as int;
    assert((m * 65536) / 1 == m * 65536 && (n * 65536) / 1 == n * 65536);
    let d = y.spec_minus(x);
    assert(d.raw == (n - m) * 65536);
    let p = (n - m) * k;
    assert(((n - m) * 65536) * k == p * 65536) by (nonlinear_arith)
        requires
            p == (n - m) * k,
    ;
    assert((p * 65536) / 65536 == p);
    let v = m * 65536 + p;
    assert(m * (65536 - k) + n * k == v) by (nonlinear_arith)
        requires
            p == (n - m) * k,
            v == m * 65536 + p,
    ;
    assert((m <= n ==> 0 <= p <= (n - m) * 65536) && (n <= m ==> (n - m) * 65536 <= p <= 0))
        by (nonlinear_arith)
        requires
            p == (n - m) * k,
            0 <= k <= 65536,
    ;
    let s = x.spec_plus(d.spec_times(f));
    assert(s.raw == v);
    let q = (v + 32768) / 65536;
    assert(s.spec_rounded().raw == q * 65536);
    assert((q * 65536) / 65536 == q);
    assert(s.spec_rounded().spec_to_int() == q);
    if k == 0 {
        assert(p == 0) by (nonlinear_arith)
            requires
                p == (n - m) * k,
                k == 0,
        ;
    }
}

/// A colour between two others is the one at none of the way and the other at all of it.
pub proof fn law_colours_are_mixed(a: Color32, b: Color32)
    ensures
        color_between(a, b, (Fixed { raw: 0 })) == a,
        color_between(a, b, (Fixed { raw: 65536 })) == b,
        forall|f: Fixed| #[trigger] color_between(a, b, f).r == channel_between(a.r, b.r, f),
        forall|f: Fixed| #[trigger] color_between(a, b, f).g == channel_between(a.g, b.g, f),
        forall|f: Fixed| #[trigger] color_between(a, b, f).b == channel_between(a.b, b.b, f),
        forall|f: Fixed| #[trigger] color_between(a, b, f).a == channel_between(a.a, b.a, f),
{
    law_channels_are_mixed(a.r, b.r, Fixed { raw: 0 });
    law_channels_are_mixed(a.g, b.g, Fixed { raw: 0 });
    law_channels_are_mixed(a.b, b.b, Fixed { raw: 0 });
    law_channels_are_mixed(a.a, b.a, Fixed { raw: 0 });
    law_channels_are_mixed(a.r, b.r, Fixed { raw: 65536 });
    law_channels_are_mixed(a.g, b.g, Fixed { raw: 65536 });
    law_channels_are_mixed(a.b, b.b, Fixed { raw: 65536 });
    law_channels_are_mixed(a.a, b.a, Fixed { raw: 65536 });
}

/// Whether the stops of a gradient come one after the other, all of them on it.
pub open spec fn are_in_order(stops: Seq<GradientStop<Fixed>>) -> bool {
    &&& forall|i: int| 0 <= i < stops.len() ==> 0 <= (#[trigger] stops[i]).offset.raw <= 65536
    &&& forall|i: int, j: int|
        0 <= i < j < stops.len() ==> (#[trigger] stops[i]).offset.raw < (
        #[trigger] stops[j]).offset.raw
}

/// A gradient has the colour of each stop where that stop is; before the first it has that of the first,
/// and behind the last that of the last. Without stops it shows nothing.
pub proof fn law_gradients_pass_their_stops(stops: Seq<GradientStop<Fixed>>, k: int, t: Fixed)
    requires
        are_in_order(stops),
        0 <= k < stops.len(),
    ensures
        gradient_color(stops, stops[k].offset) == stops[k].color,
        t.raw <= stops[0].offset.raw ==> gradient_color(stops, t) == stops[0].color,
        t.raw >= stops.last().offset.raw ==> gradient_color(stops, t) == stops.last().color,
        gradient_color(Seq::<GradientStop<Fixed>>::empty(), t) == (Color32 {
            r: 0,
            g: 0,
            b: 0,
            a: 0,
        }),
{
    assert(Fixed::spec_ratio(0, 1).raw == 0 && Fixed::spec_ratio(1, 1).raw == 65536);
    let last = stops.len() - 1;
    assert(0 <= stops[k].offset.raw <= 65536);
    assert(0 <= stops[0].offset.raw <= 65536);
    assert(0 <= stops[last].offset.raw <= 65536);
    if k > 0 {
        assert(stops[0].offset.raw < stops[k].offset.raw);
        lemma_stop(stops, 0, k);
    }
    let v = crate::scalar::spec_clamped(t, Fixed::spec_ratio(0, 1), Fixed::spec_ratio(1, 1));
    if t.raw >= stops[last].offset.raw {
        if v.raw > stops[0].offset.raw {
            lemma_behind(stops, v, 0);
        } else {
            if last > 0 {
                assert(stops[0].offset.raw < stops[last].offset.raw);
            }
        }
    }
}

proof fn lemma_stop(stops: Seq<GradientStop<Fixed>>, j: int, k: int)
    requires
        are_in_order(stops),
        0 <= j <= k < stops.len(),
    ensures
        stop_color(stops, stops[k].offset, j) == stops[k].color,
    decreases stops.len() - j,
{
    if j + 1 < stops.len() {
        assert(stops[j].offset.raw < stops[j + 1].offset.raw);
        if j < k {
            if j + 1 < k {
                assert(stops[j + 1].offset.raw < stops[k].offset.raw);
            }
            lemma_stop(stops, j + 1, k);
        } else {
            assert(0 <= stops[j].offset.raw <= 65536 && 0 <= stops[j + 1].offset.raw <= 65536);
            let span = stops[j + 1].offset.spec_minus(stops[j].offset);
            assert(Fixed::spec_ratio(0, 1).raw == 0);
            assert(span.raw > 0);
            let f = stops[k].offset.spec_minus(stops[j].offset).spec_over(span);
            assert(0int / (span.raw as int) == 0) by (nonlinear_arith)
                requires
                    span.raw > 0,
            ;
            assert(f == Fixed { raw: 0 });
            law_colours_are_mixed(stops[j].color, stops[j + 1].color);
        }
    }
}

proof fn lemma_behind(stops: Seq<GradientStop<Fixed>>, v: Fixed, j: int)
    requires
        are_in_order(stops),
        0 <= j < stops.len(),
        v.raw >= stops.last().offset.raw,
    ensures
        stop_color(stops, v, j) == stops.last().color,
    decreases stops.len() - j,
{
    let last = stops.len() - 1;
    if j + 1 < stops.len() {
        if j + 1 < last {
            assert(stops[j + 1].offset.raw < stops[last].offset.raw);
        }
        lemma_behind(stops, v, j + 1);
    }
}

/// A gradient from left to right begins at its first point and ends at its second; straight above or
/// below the first it is where it begins. One that goes round is as far along as it is from the middle.
pub proof fn law_gradients_run_from_end_to_end(from: Pos2<Fixed>, d: Fixed, y: Fixed)
    requires
        -0x400_0000 <= from.x.raw <= 0x400_0000,
        -0x400_0000 <= from.y.raw <= 0x400_0000,
        65536 <= d.raw <= 100 * 65536,
        -100 * 65536 <= y.raw <= 100 * 65536,
    ensures
        ({
            let to = Pos2 { x: from.x.spec_plus(d), y: from.y };
            let below = Pos2 { x: from.x, y: from.y.spec_plus(y) };
            &&& gradient_place(GradientKind::Linear, from, to, from).raw == 0
            &&& gradient_place(GradientKind::Linear, from, to, to).raw == 65536
            &&& gradient_place(GradientKind::Linear, from, to, below).raw == 0
            &&& gradient_place(GradientKind::Radial, from, to, from).raw == 0
            &&& gradient_place(GradientKind::Radial, from, to, to).raw == 65536
            &&& y == d ==> gradient_place(GradientKind::Radial, from, to, below).raw == 65536
        }),
{
    let to = Pos2 { x: from.x.spec_plus(d), y: from.y };
    let below = Pos2 { x: from.x, y: from.y.spec_plus(y) };
    let n = d.raw as int;
    let m = y.raw as int;
    let way = to.spec_from(from);
    let none = from.spec_from(from);
    let down = below.spec_from(from);
    assert(way.x == d && way.y.raw == 0);
    assert(none.x.raw == 0 && none.y.raw == 0);
    assert(down.x.raw == 0 && down.y == y);
    assert(0 * 0 == 0 && 0 * n == 0 && m * 0 == 0);
    let sq = (n * n) / 65536;
    assert(65536 <= sq <= 655360000) by (nonlinear_arith)
        requires
            sq == (n * n) / 65536,
            65536 <= n <= 6553600,
    ;
    assert(way.spec_dot(way).raw == sq);
    assert(none.spec_dot(way).raw == 0);
    assert(down.spec_dot(way).raw == 0);
    assert((sq * 65536) / sq == 65536 && 0int / sq == 0 && (n * 65536) / n == 65536 && 0int / n
        == 0) by (nonlinear_arith)
        requires
            sq > 0,
            n > 0,
    ;
    crate::fixed::lemma_whole_root(n * n, n);
    crate::fixed::lemma_whole_root(0, 0);
    assert(way.spec_length().raw == n && none.spec_length().raw == 0);
    if y == d {
        assert(down.spec_length().raw == n);
    }
    assert(Fixed::spec_ratio(0, 1).raw == 0);
}

/// The one colour that stands for a paint: its own where it has one, that of the middle of a gradient.
pub proof fn law_flat_colours<S: Scalar>(
    c: Color32,
    kind: GradientKind,
    from: Pos2<S>,
    to: Pos2<S>,
    stops: Seq<GradientStop<S>>,
)
    ensures
        flat_color(PaintView::<S>::Solid(c)) == c,
        flat_color((PaintView::Gradient { kind, from, to, stops })) == gradient_color(
            stops,
            S::spec_ratio(1, 2),
        ),
{
}

/// On upright ground the corner of a box is at none of the way across and down, and the far corner at all
/// of it.
pub proof fn law_fractions_on_the_ground(ground: Ground<Fixed>)
    requires
        near_box(ground.rect),
        65536 <= ground.rect.max.x.raw - ground.rect.min.x.raw <= 0x1000_0000,
        65536 <= ground.rect.max.y.raw - ground.rect.min.y.raw <= 0x1000_0000,
        near_point(ground.center),
        ground.rotation.raw == 0,
    ensures
        ground.spec_fraction(ground.rect.min) == (Pos2 {
            x: Fixed { raw: 0 },
            y: Fixed { raw: 0 },
        }),
        ground.spec_fraction(ground.rect.max) == (Pos2 {
            x: Fixed { raw: 65536 },
            y: Fixed { raw: 65536 },
        }),
{
    let r = ground.rect;
    assert(ground.rotation.spec_negated() == Fixed { raw: 0 });
    crate::plane::lemma_unturned(r.min, ground.center);
    crate::plane::lemma_unturned(r.max, ground.center);
    assert(Fixed::spec_ratio(1, 1000).raw == 65);
    let w = r.max.x.raw - r.min.x.raw;
    let h = r.max.y.raw - r.min.y.raw;
    assert((w * 65536) / w == 65536 && (h * 65536) / h == 65536 && 0int / w == 0 && 0int / h == 0)
        by (nonlinear_arith)
        requires
            w > 0,
            h > 0,
    ;
}

/// A step that is smoothed is none before its first edge and whole behind its second.
pub proof fn law_smooth_steps(edge0: Fixed, edge1: Fixed, x: Fixed)
    requires
        near(edge0) && near(edge1) && near(x),
        edge0.raw < edge1.raw,
    ensures
        x.raw <= edge0.raw ==> smooth(edge0, edge1, x).raw == 0,
        x.raw >= edge1.raw ==> smooth(edge0, edge1, x).raw == 65536,
{
    let n = x.raw - edge0.raw;
    let d = edge1.raw - edge0.raw;
    let q = (n * 65536) / d;
    assert((n <= 0 ==> q <= 0) && (n >= d ==> q >= 65536)) by (nonlinear_arith)
        requires
            d > 0,
            q == (n * 65536) / d,
    ;
    assert(Fixed::spec_ratio(0, 1).raw == 0 && Fixed::spec_ratio(1, 1).raw == 65536);
    assert(Fixed::spec_ratio(2, 1).raw == 131072 && Fixed::spec_ratio(3, 1).raw == 196608);
    let t = crate::scalar::spec_clamped(
        x.spec_minus(edge0).spec_over(edge1.spec_minus(edge0)),
        Fixed::spec_ratio(0, 1),
        Fixed::spec_ratio(1, 1),
    );
    if x.raw <= edge0.raw {
        assert(t.raw == 0);
        let z = Fixed { raw: 0 };
        assert(t == z);
        assert(z.spec_times(z) == z) by {
            assert(0 * 0 == 0);
        }
        let e = Fixed::spec_ratio(3, 1).spec_minus(Fixed::spec_ratio(2, 1).spec_times(t));
        assert(0 * e.raw == 0);
    } else if x.raw >= edge1.raw {
        assert(t.raw == 65536);
        assert(131072int * 65536 / 65536 == 131072);
        assert(65536int * 65536 / 65536 == 65536);
    }
}

/// Each dot is in the middle of its cell: a row as high as the cell, and a column as wide, every other
/// row moved by half of it.
pub proof fn law_dots_are_in_the_middle_of_their_cell(scale: Fixed, p: Pos2<Fixed>)
    requires
        655 <= scale.raw <= 0x100_0000,
        0 <= p.y.raw <= 0x2000_0000,
        0 <= p.x.raw <= 0x2000_0000,
        p.y.raw * 65536 < 0x7fff_0000 * scale.raw,
        (p.x.raw + scale.raw) * 65536 < 0x7fff_0000 * scale.raw,
    ensures
        ({
            let c = dot_center(scale, p);
            let half = scale.raw as int / 2;
            &&& 0 <= p.y.raw - (c.y.raw - half) < scale.raw
            &&& 0 <= p.x.raw - (c.x.raw - half) < scale.raw
        }),
        stagger(scale, Fixed::spec_ratio(0, 1)).raw == 0,
        stagger(scale, Fixed::spec_ratio(1, 1)).raw == scale.raw as int / 2,
        stagger(scale, Fixed::spec_ratio(2, 1)).raw == 0,
{
    crate::gripping::lemma_half_of(scale);
    assert(Fixed::spec_ratio(0, 1).raw == 0 && Fixed::spec_ratio(1, 1).raw == 65536
        && Fixed::spec_ratio(2, 1).raw == 131072);
    lemma_cell_middle(scale, p.y);
    let row = p.y.spec_over(scale).spec_floored();
    let shift = stagger(scale, row);
    assert(0 <= shift.raw <= scale.raw);
    lemma_cell_middle(scale, p.x.spec_plus(shift));
}

proof fn lemma_cell_middle(scale: Fixed, v: Fixed)
    requires
        655 <= scale.raw <= 0x100_0000,
        0 <= v.raw <= 0x2100_0000,
        v.raw * 65536 < 0x7fff_0000 * scale.raw,
    ensures
        ({
            let m = v.spec_over(scale).spec_floored().spec_plus(Fixed::spec_ratio(1, 2)).spec_times(
                scale,
            );
            0 <= v.raw - (m.raw - scale.raw as int / 2) < scale.raw && m.raw <= 0x2300_0000 && m.raw
                >= 0
        }),
{
    let s = scale.raw as int;
    let n = v.raw as int;
    let q = (n * 65536) / s;
    assert(0 <= q < 0x7fff_0000 && q * s <= n * 65536 < q * s + s) by (nonlinear_arith)
        requires
            q == (n * 65536) / s,
            0 <= n,
            s > 0,
            n * 65536 < 0x7fff_0000 * s,
    ;
    assert(v.spec_over(scale).raw == q);
    let r = q / 65536;
    assert(v.spec_over(scale).spec_floored().raw == r * 65536);
    assert(r * s <= n < r * s + s) by (nonlinear_arith)
        requires
            r == q / 65536,
            q * s <= n * 65536 < q * s + s,
            s > 0,
    ;
    let h = r * 65536 + 32768;
    assert(Fixed::spec_ratio(1, 2).raw == 32768);
    assert(v.spec_over(scale).spec_floored().spec_plus(Fixed::spec_ratio(1, 2)).raw == h);
    assert((h * s) / 65536 == r * s + s / 2) by (nonlinear_arith)
        requires
            h == r * 65536 + 32768,
            s >= 0,
    ;
}

/// Where a dot is whole the colour of dots shows, and where none is the ground.
pub proof fn law_dots_lie_on_their_ground(fill: HalftoneFill<Fixed>, p: Pos2<Fixed>)
    requires
        fill.dot.a == 255 && fill.background.a == 255,
    ensures
        dot_weight(fill, p).raw == 65536 ==> halftone(fill, p, Fixed::spec_ratio(1, 1)) == fill.dot,
        dot_weight(fill, p).raw == 0 ==> halftone(fill, p, Fixed::spec_ratio(1, 1))
            == fill.background,
{
    let w = dot_weight(fill, p);
    if w.raw == 0 || w.raw == 65536 {
        law_channels_are_mixed(fill.background.r, fill.dot.r, w);
        law_channels_are_mixed(fill.background.g, fill.dot.g, w);
        law_channels_are_mixed(fill.background.b, fill.dot.b, w);
        let x = Fixed::spec_ratio(255, 1);
        assert(x.raw == 16711680);
        let d = x.spec_minus(x);
        assert(d.raw == 0);
        assert(0 * w.raw == 0);
        let s = x.spec_plus(d.spec_times(w));
        assert(s == x);
        lemma_times_one(x);
        assert(Fixed::spec_ratio(1, 1) == Fixed { raw: 65536 });
        assert(s.spec_times(Fixed::spec_ratio(1, 1)) == x);
        assert(x.spec_rounded().raw == 16711680) by {
            assert((16711680int + 32768) / 65536 * 65536 == 16711680);
        }
        assert(16711680int / 65536 == 255);
        assert(x.spec_rounded().spec_to_int() == 255);
    }
}

/// Ink that covers a pixel whole and hides all replaces it; ink that does not touch it leaves it alone.
pub proof fn law_ink_covers(under: Color32, color: Color32)
    ensures
        blended(under, (Fixed { raw: 0 }), color) == under,
        color.a == 0 ==> blended(under, (Fixed { raw: 65536 }), color) == under,
        color.a == 255 ==> blended(under, (Fixed { raw: 65536 }), color) == color,
{
    assert(Fixed::spec_ratio(0, 1).raw == 0 && Fixed::spec_ratio(1, 1).raw == 65536);
    assert(Fixed::spec_ratio(255, 1).raw == 16711680);
    let a = Fixed::spec_ratio(color.a as int, 1).spec_over(Fixed::spec_ratio(255, 1));
    assert(0 * a.raw == 0);
    assert(ink_alpha(Fixed { raw: 0 }, color).raw == 0);
    let full = ink_alpha(Fixed { raw: 65536 }, color);
    if color.a == 0 {
        assert(0int / 16711680 == 0);
        assert(a.raw == 0);
        assert(full.raw == 0) by {
            assert(65536 * 0 == 0);
        }
    }
    if color.a == 255 {
        assert(16711680int * 65536 / 16711680 == 65536);
        assert(a.raw == 65536);
        assert(65536int * 65536 / 65536 == 65536);
        assert(full == Fixed { raw: 65536 });
        lemma_covered(255, under.a);
        lemma_covered(color.r as int, under.r);
        lemma_covered(color.g as int, under.g);
        lemma_covered(color.b as int, under.b);
    }
}

proof fn lemma_covered(over: int, under: u8)
    requires
        0 <= over <= 255,
    ensures
        covered(over, under, (Fixed { raw: 65536 }), 255) == over,
{
    let x = Fixed::spec_ratio(over, 1);
    assert((over * 65536) / 1 == over * 65536);
    assert(x.raw == over * 65536);
    lemma_times_one(x);
    let u = Fixed::spec_ratio(under as int, 1);
    assert(Fixed::spec_ratio(1, 1) == Fixed { raw: 65536 });
    assert((Fixed { raw: 65536 }).spec_minus(Fixed { raw: 65536 }) == Fixed { raw: 0 });
    assert(u.raw * 0 == 0);
    assert(u.spec_times(Fixed { raw: 0 }) == Fixed { raw: 0 });
    let s = x.spec_times(Fixed { raw: 65536 }).spec_plus(u.spec_times(Fixed { raw: 0 }));
    assert(s == x);
    assert((over * 65536 + 32768) / 65536 == over);
    assert(x.spec_rounded().raw == over * 65536);
    assert((over * 65536) / 65536 == over);
}

/// Slanted glyphs lean to the right above the baseline and to the left below it, by about a fifth of how
/// far they are from it.
pub proof fn law_slanted_glyphs_lean(baseline: int, y: int)
    requires
        -10000 <= baseline <= 10000,
        -10000 <= y <= 10000,
    ensures
        ({
            let s = slant(Fixed::spec_ratio(baseline, 1), y);
            &&& y == baseline ==> s == 0
            &&& y < baseline ==> s >= 0
            &&& y > baseline ==> s <= 0
            &&& -32769 <= s * 65536 - (baseline - y) * 14417 <= 32769
        }),
{
    let b = Fixed::spec_ratio(baseline, 1);
    let v = Fixed::spec_ratio(y, 1);
    assert((baseline * 65536) / 1 == baseline * 65536 && (y * 65536) / 1 == y * 65536);
    let n = baseline - y;
    let d = b.spec_minus(v);
    assert(d.raw == n * 65536);
    assert(Fixed::spec_ratio(22, 100).raw == 14417);
    assert((n * 65536) * 14417 == (n * 14417) * 65536) by (nonlinear_arith);
    assert(((n * 14417) * 65536) / 65536 == n * 14417);
    let p = d.spec_times(Fixed::spec_ratio(22, 100));
    assert(p.raw == n * 14417);
    let r = p.spec_rounded();
    if n < 0 {
        let q = (32768 - p.raw) / 65536;
        assert(r.raw == -(q * 65536));
        assert((q * 65536) / 65536 == q);
        if q > 0 {
            assert(r.raw < 0);
        }
    } else {
        let q = (p.raw + 32768) / 65536;
        assert(r.raw == q * 65536);
        assert((q * 65536) / 65536 == q);
    }
}

/// A glyph that is upright is drawn where it is, and only inside of what clips it; a bold one is drawn
/// a second time, beside the first.
pub proof fn law_glyphs_are_drawn_where_they_are(x: int, y: int, baseline: Fixed, clip: Rect<Fixed>)
    requires
        -10000 <= x <= 10000,
        -10000 <= y <= 10000,
    ensures
        pixel_of_glyph(x, y, baseline, false, None::<Rect<Fixed>>) == Some((x, y)),
        ({
            let inside = clip.min.x.raw <= x * 65536 < clip.max.x.raw && clip.min.y.raw <= y * 65536
                < clip.max.y.raw;
            &&& inside ==> pixel_of_glyph(x, y, baseline, false, Some(clip)) == Some((x, y))
            &&& !inside ==> pixel_of_glyph(x, y, baseline, false, Some(clip)) is None
        }),
        copies_of_glyph::<Fixed>(false).len() == 1,
        copies_of_glyph::<Fixed>(false)[0].raw == 0,
        copies_of_glyph::<Fixed>(true).len() == 2,
        copies_of_glyph::<Fixed>(true)[0].raw == 0,
        0 < copies_of_glyph::<Fixed>(true)[1].raw < 65536,
{
    assert((x * 65536) / 1 == x * 65536 && (y * 65536) / 1 == y * 65536);
    assert(Fixed::spec_ratio(3, 5).raw == 39321);
    assert(Fixed::spec_ratio(0, 1).raw == 0);
}

/// The side of a texture is a multiple of thirty-two that is as long as what it shows, but not more than
/// a thousand and twenty-four.
pub proof fn law_sides_of_textures(length: Fixed)
    ensures
        texture_side(length) % 32 == 0,
        32 <= texture_side(length) <= 1024,
        length.raw <= 1024 * 65536 ==> texture_side(length) * 65536 >= length.raw,
        65536 <= length.raw <= 1024 * 65536 ==> (texture_side(length) - 32) * 65536 < length.raw,
{
    let n = length.raw as int;
    let c = (n + 65535) / 65536;
    if 0 < n <= 0x7000_0000 {
        assert(length.spec_ceiled().raw == c * 65536);
        assert((c * 65536) / 65536 == c);
    }
}

} // verus!
