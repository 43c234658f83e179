//! The pixels of glyphs: where a pixel goes, whether it shows and how it covers what is there.
use vstd::prelude::*;

use crate::color::{pixel_channels, Color32};
use crate::fonts::{ab_glyph_bytes, ab_glyph_bytes_bold, bold_face, regular_face, FontFile};
use crate::geometry::Rect;
use crate::model::{group_views, KindView, Layer, LayerKind, LayerView};
use crate::scalar::{clamp_int, clamped, spec_clamped, Scalar};
use crate::shading::{flat_color, to_channel};
use crate::text::{run_views, TextBlock, TextBlockView, TextFont, TextFontView, TextRunView};
use crate::text_rows::{Look, Setting};

verus! {

broadcast use group_views;

/// How many pixels an italic glyph's row is moved, by how far it is above the baseline.
pub open spec fn slant<S: Scalar>(baseline: S, y: int) -> int {
    clamp_int(
        baseline.spec_minus(S::spec_ratio(y, 1)).spec_times(
            S::spec_ratio(22, 100),
        ).spec_rounded().spec_to_int(),
        i32::MIN as int,
        i32::MAX as int,
    )
}

/// How far to the right of its place each copy of a glyph is drawn: once where it is, and for
/// bold that no face has a second time beside it.
pub open spec fn copies_of_glyph<S: Scalar>(doubled: bool) -> Seq<S> {
    if doubled {
        seq![S::spec_ratio(0, 1), S::spec_ratio(3, 5)]
    } else {
        seq![S::spec_ratio(0, 1)]
    }
}

/// How far to the right of its place each copy of a glyph is drawn.
pub fn glyph_offsets<S: Scalar>(doubled: bool) -> (r: Vec<S>)
    ensures
        r@ == copies_of_glyph::<S>(doubled),
{
    let mut r: Vec<S> = vec![S::ratio(0, 1)];
    if doubled {
        r.push(S::ratio(3, 5));
    }
    assert(r@ =~= copies_of_glyph::<S>(doubled));
    r
}

/// Whether a pixel is inside a clip: its left and top edges belong to it.
pub open spec fn unclipped<S: Scalar>(x: int, y: int, clip: Option<Rect<S>>) -> bool {
    match clip {
        Some(c) => {
            let px = S::spec_ratio(x, 1);
            let py = S::spec_ratio(y, 1);
            !(px.spec_lt(c.min.x) || c.max.x.spec_le(px) || py.spec_lt(c.min.y) || c.max.y.spec_le(
                py,
            ))
        },
        None => true,
    }
}

/// Where a pixel of a glyph goes; nowhere, if it is clipped.
pub open spec fn pixel_of_glyph<S: Scalar>(
    x: int,
    y: int,
    baseline: S,
    italic: bool,
    clip: Option<Rect<S>>,
) -> Option<(int, int)> {
    let px = if italic {
        x + slant(baseline, y)
    } else {
        x
    };
    if unclipped(px, y, clip) {
        Some((px, y))
    } else {
        None
    }
}

/// Where a pixel of a glyph goes; nowhere, if it is clipped.
pub fn place_glyph_pixel<S: Scalar>(
    x: i32,
    y: i32,
    baseline: S,
    italic: bool,
    clip: Option<Rect<S>>,
) -> (r: Option<(i64, i64)>)
    ensures
        match pixel_of_glyph(x as int, y as int, baseline, italic, clip) {
            Some(p) => r matches Some(q) && q.0 == p.0 && q.1 == p.1,
            None => r is None,
        },
{
    let y: i64 = y as i64;
    let px: i64 = if italic {
        let v: i64 = baseline.minus(S::of_int(y)).times(S::ratio(22, 100)).rounded().to_i64();
        let shift: i64 = if v < -2147483648 {
            -2147483648
        } else if v > 2147483647 {
            2147483647
        } else {
            v
        };
        x as i64 + shift
    } else {
        x as i64
    };
    if let Some(c) = clip {
        let fx = S::of_int(px);
        let fy = S::of_int(y);
        if fx.is_lt(c.min.x) || c.max.x.is_le(fx) || fy.is_lt(c.min.y) || c.max.y.is_le(fy) {
            return None;
        }
    }
    Some((px, y))
}

/// The place of a pixel in the list of all; none outside of the picture.
pub fn pixel_index(x: i64, y: i64, width: u32, height: u32) -> (r: Option<usize>)
    requires
        width * height <= usize::MAX,
    ensures
        match r {
            Some(i) => 0 <= x < width && 0 <= y < height && i == y * width + x && i < width * height,
            None => !(0 <= x < width && 0 <= y < height),
        },
{
    if x < 0 || y < 0 || x >= width as i64 || y >= height as i64 {
        return None;
    }
    assert(y * width + x < width * height && y * width >= 0) by (nonlinear_arith)
        requires
            0 <= x < width,
            0 <= y < height,
    ;
    let (cx, cy, w): (usize, usize, usize) = (x as usize, y as usize, width as usize);
    Some(cy * w + cx)
}

/// A channel of what a colour covers with some alpha.
pub open spec fn covered<S: Scalar>(over: int, under: u8, alpha: S, most: u8) -> u8 {
    clamp_int(
        clamp_int(
            S::spec_ratio(over, 1).spec_times(alpha).spec_plus(
                S::spec_ratio(under as int, 1).spec_times(S::spec_ratio(1, 1).spec_minus(alpha)),
            ).spec_rounded().spec_to_int(),
            i64::MIN as int,
            i64::MAX as int,
        ),
        0,
        most as int,
    ) as u8
}

fn cover<S: Scalar>(over: u8, under: u8, alpha: S, most: u8) -> (r: u8)
    ensures
        r == covered(over as int, under, alpha, most),
        r <= most,
{
    let inv = S::ratio(1, 1).minus(alpha);
    let v: i64 = S::of_int(over as i64).times(alpha).plus(
        S::of_int(under as i64).times(inv),
    ).rounded().to_i64();
    let c = to_channel(v);
    if c > most {
        most
    } else {
        c
    }
}

/// How much of a pixel a glyph hides.
pub open spec fn ink_alpha<S: Scalar>(coverage: S, color: Color32) -> S {
    spec_clamped(coverage, S::spec_ratio(0, 1), S::spec_ratio(1, 1)).spec_times(
        S::spec_ratio(color.a as int, 1).spec_over(S::spec_ratio(255, 1)),
    )
}

/// A pixel after a glyph covered part of it.
pub open spec fn blended<S: Scalar>(under: Color32, coverage: S, color: Color32) -> Color32 {
    let alpha = ink_alpha(coverage, color);
    if alpha.spec_le(S::spec_ratio(0, 1)) {
        under
    } else {
        let a = covered(255, under.a, alpha, 255);
        Color32 {
            r: covered(color.r as int, under.r, alpha, a),
            g: covered(color.g as int, under.g, alpha, a),
            b: covered(color.b as int, under.b, alpha, a),
            a,
        }
    }
}

/// A pixel after a glyph covered the fraction `coverage` of it.
pub fn blend_glyph_pixel<S: Scalar>(under: Color32, coverage: S, color: Color32) -> (r: Color32)
    ensures
        r == blended(under, coverage, color),
{
    let alpha = clamped(coverage, S::ratio(0, 1), S::ratio(1, 1)).times(
        S::of_int(color.a as i64).over(S::ratio(255, 1)),
    );
    if alpha.is_le(S::ratio(0, 1)) {
        return under;
    }
    let a = cover(255, under.a, alpha, 255);
    let r = cover(color.r, under.r, alpha, a);
    let g = cover(color.g, under.g, alpha, a);
    let b = cover(color.b, under.b, alpha, a);
    match pixel_channels(r, g, b, a) {
        Some((r, g, b, a)) => Color32 { r, g, b, a },
        None => under,
    }
}

/// A pixel whose channels do not exceed its alpha stays one, whatever covers it.
pub proof fn law_blending_keeps_pixels_premultiplied<S: Scalar>(
    under: Color32,
    coverage: S,
    color: Color32,
)
    requires
        under.r <= under.a,
        under.g <= under.a,
        under.b <= under.a,
    ensures
        ({
            let p = blended(under, coverage, color);
            p.r <= p.a && p.g <= p.a && p.b <= p.a
        }),
{
}

/// How the runs of a text look.
pub open spec fn run_look<S>(r: TextRunView<S>) -> Look<S> {
    Look {
        font_size: r.style.font_size,
        color: r.style.color,
        bold: r.style.bold,
        italic: r.style.italic,
        underline: r.style.underline,
        strikethrough: r.style.strikethrough,
    }
}

/// How the text of a layer is set and looks; none without content or fill.
pub open spec fn text_setting<S: Scalar>(v: LayerView<S>, bounds: Rect<S>, opacity: S) -> Option<
    (Setting<S>, Seq<Look<S>>),
> {
    match (v.kind, v.style.fill) {
        (KindView::Text { text }, Some(fill)) => if text.content.len() == 0 {
            None
        } else {
            let base = Look {
                font_size: text.font_size,
                color: Some(flat_color(fill)),
                bold: text.bold,
                italic: text.italic,
                underline: text.underline,
                strikethrough: text.strikethrough,
            };
            Some(
                (
                    Setting {
                        bounds,
                        align: text.align,
                        vertical_align: text.vertical_align,
                        resize: text.resize,
                        line_height: text.line_height,
                        letter_spacing: text.letter_spacing,
                        paragraph_spacing: text.paragraph_spacing,
                        uniform: text.runs.len() == 0,
                        opacity: opacity.spec_times(v.style.fill_opacity),
                    },
                    seq![base] + Seq::new(text.runs.len(), |i: int| run_look(text.runs[i])),
                ),
            )
        },
        _ => None,
    }
}

/// How the text of a layer is set and looks: first what is in no run, then each run. None without
/// content or fill.
pub fn layer_text<S: Scalar>(layer: &Layer<S>, bounds: Rect<S>, opacity: S) -> (r: Option<
    (Setting<S>, Vec<Look<S>>),
>)
    ensures
        match text_setting(layer@, bounds, opacity) {
            Some(t) => r matches Some(u) && u.0 == t.0 && u.1@ == t.1,
            None => r is None,
        },
{
    match (&layer.kind, &layer.style.fill) {
        (LayerKind::Text { text }, Some(fill)) => {
            if text.content.as_str().unicode_len() == 0 {
                return None;
            }
            let ghost runs = run_views(text.runs@);
            let base = Look {
                font_size: text.font_size,
                color: Some(fill.to_color32()),
                bold: text.bold,
                italic: text.italic,
                underline: text.underline,
                strikethrough: text.strikethrough,
            };
            let mut looks: Vec<Look<S>> = vec![base];
            let n = text.runs.len();
            let mut i: usize = 0;
            assert(looks@ =~= seq![base] + Seq::new(0, |i: int| run_look(runs[i])));
            while i < n
                invariant
                    runs == run_views(text.runs@),
                    n == text.runs.len(),
                    i <= n,
                    looks@ == seq![base] + Seq::new(i as nat, |i: int| run_look(runs[i])),
                decreases n - i,
            {
                assert(runs[i as int] == text.runs@[i as int]@);
                let style = &text.runs[i].style;
                looks.push(
                    Look {
                        font_size: style.font_size,
                        color: style.color,
                        bold: style.bold,
                        italic: style.italic,
                        underline: style.underline,
                        strikethrough: style.strikethrough,
                    },
                );
                i += 1;
                assert(looks@ =~= seq![base] + Seq::new(i as nat, |i: int| run_look(runs[i])));
            }
            let setting = Setting {
                bounds,
                align: text.align,
                vertical_align: text.vertical_align,
                resize: text.resize,
                line_height: text.line_height,
                letter_spacing: text.letter_spacing,
                paragraph_spacing: text.paragraph_spacing,
                uniform: n == 0,
                opacity: opacity.times(layer.style.fill_opacity),
            };
            Some((setting, looks))
        },
        _ => None,
    }
}

/// The file and the face in it for one style of a text; `installed` are the regular and the bold
/// face of its family, where that is an installed one.
pub open spec fn style_face(
    font: TextFontView,
    bold: bool,
    installed: (Option<u32>, Option<u32>),
) -> (FontFile, u32) {
    if bold {
        bold_face(font, installed.0, installed.1)
    } else {
        regular_face(font, installed.0)
    }
}

/// The files and faces of a text: first for what is in no run, then for each run. Uniform text is
/// always drawn in the regular face: its bold is drawn twice.
pub open spec fn text_faces<S>(
    t: TextBlockView<S>,
    installed: Seq<(Option<u32>, Option<u32>)>,
) -> Seq<(FontFile, u32)> {
    seq![style_face(t.font, t.bold && t.runs.len() > 0, installed[0])] + Seq::new(
        t.runs.len(),
        |i: int| style_face(t.runs[i].style.font, t.runs[i].style.bold, installed[i + 1]),
    )
}

fn face_of_style(font: &TextFont, bold: bool, installed: (Option<u32>, Option<u32>)) -> (r: (
    FontFile,
    u32,
))
    ensures
        r == style_face(font@, bold, installed),
{
    if bold {
        ab_glyph_bytes_bold(font, installed.0, installed.1)
    } else {
        ab_glyph_bytes(font, installed.0)
    }
}

/// The files and faces of a text: first for what is in no run, then for each run. `installed`
/// holds as many pairs: the regular and the bold face of an installed family.
pub fn choose_faces<S: Scalar>(
    text: &TextBlock<S>,
    installed: &Vec<(Option<u32>, Option<u32>)>,
) -> (r: Vec<(FontFile, u32)>)
    requires
        installed.len() == text@.runs.len() + 1,
    ensures
        r@ == text_faces(text@, installed@),
{
    let ghost runs = run_views(text.runs@);
    let n = text.runs.len();
    let first = face_of_style(&text.font, text.bold && n > 0, installed[0]);
    let mut r: Vec<(FontFile, u32)> = vec![first];
    let mut i: usize = 0;
    let ghost rest = |i: int|
        style_face(runs[i].style.font, runs[i].style.bold, installed@[i + 1]);
    assert(r@ =~= seq![first] + Seq::new(0, rest));
    while i < n
        invariant
            runs == run_views(text.runs@),
            n == text.runs.len(),
            i <= n,
            installed.len() == n + 1,
            rest == (|i: int|
                style_face(runs[i].style.font, runs[i].style.bold, installed@[i + 1])),
            r@ == seq![first] + Seq::new(i as nat, rest),
        decreases n - i,
    {
        assert(runs[i as int] == text.runs@[i as int]@);
        let style = &text.runs[i].style;
        r.push(face_of_style(&style.font, style.bold, installed[i + 1]));
        i += 1;
        assert(r@ =~= seq![first] + Seq::new(i as nat, rest));
    }
    assert(r@ =~= text_faces(text@, installed@));
    r
}

/// How many of the first `k` faces could be read.
pub open spec fn faces_read(read: Seq<bool>, k: nat) -> nat
    decreases k,
{
    if k == 0 {
        0
    } else {
        faces_read(read, (k - 1) as nat) + (if read[k - 1] {
            1nat
        } else {
            0nat
        })
    }
}

/// Which of the faces that could be read draws each style: its own, or else that of what is in no
/// run. None if not even that one could be read: nothing is drawn.
pub fn face_table(read: &Vec<bool>) -> (r: Option<Vec<usize>>)
    requires
        read.len() > 0,
    ensures
        match r {
            Some(table) => read@[0] && table@ == Seq::new(
                read@.len(),
                |i: int|
                    if read@[i] {
                        faces_read(read@, i as nat) as usize
                    } else {
                        0
                    },
            ),
            None => !read@[0],
        },
{
    if !read[0] {
        return None;
    }
    let mut table: Vec<usize> = Vec::new();
    let mut count: usize = 0;
    let mut i: usize = 0;
    let ghost own = |i: int|
        if read@[i] {
            faces_read(read@, i as nat) as usize
        } else {
            0usize
        };
    assert(table@ =~= Seq::new(0, own));
    while i < read.len()
        invariant
            i <= read.len(),
            count <= i,
            count == faces_read(read@, i as nat),
            own == (|i: int|
                if read@[i] {
                    faces_read(read@, i as nat) as usize
                } else {
                    0usize
                }),
            table@ == Seq::new(i as nat, own),
        decreases read.len() - i,
    {
        if read[i] {
            table.push(count);
            count += 1;
        } else {
            table.push(0);
        }
        i += 1;
        assert(table@ =~= Seq::new(i as nat, own));
    }
    assert(table@ =~= Seq::new(read@.len(), own));
    Some(table)
}

} // verus!
