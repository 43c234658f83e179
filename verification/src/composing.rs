//! Where the rows and glyphs of a text stand in its box.
use vstd::prelude::*;

use crate::color::Color32;
use crate::fixed::Fixed;
use crate::geometry::{Rect, Vec2};
use crate::model::LayerView;
use crate::plane::{lemma_half, near, near_box};
use crate::scalar::Scalar;
use crate::text::{TextAlign, TextResize, VerticalAlign};
use crate::text_editing::{editor_drop, editor_width};
use crate::text_fit::fitted;
use crate::text_rows::{
    bars, first_top, gaps_until, glyph, look_color, pen_after, row_left, row_limit, row_of,
    row_offset, row_size, rows_until, broken, stretch, tallest, total_height, Look, RowView,
    Setting, TextInk,
};
use crate::typesetting::{advance_of, kern_before, style_at, width_until, MetricsView, Tagged};

verus! {

/// Where a row stands in its box across: flush with the left side, flush with the right, or with as
/// much space on its left as on its right.
pub proof fn law_rows_stand_as_aligned(setting: Setting<Fixed>, width: Fixed)
    requires
        near_box(setting.bounds),
        near(width),
    ensures
        ({
            let b = setting.bounds;
            let x = row_left(setting, width).raw;
            &&& setting.align == TextAlign::Left ==> x == b.min.x.raw
            &&& setting.align == TextAlign::Justify ==> x == b.min.x.raw
            &&& setting.align == TextAlign::Center ==> 0 <= (b.max.x.raw - (x + width.raw)) - (x
                - b.min.x.raw) <= 1
            &&& setting.align == TextAlign::Right ==> x + width.raw == b.max.x.raw
        }),
{
    lemma_half(setting.bounds.spec_width().spec_minus(width));
}

/// Where the rows of a text begin in its box: so that they are at its top, end at its bottom, or leave
/// as much space above as below.
pub proof fn law_texts_stand_as_aligned(setting: Setting<Fixed>, total: Fixed)
    requires
        near_box(setting.bounds),
        near(total),
    ensures
        ({
            let b = setting.bounds;
            let y = first_top(setting, total).raw;
            &&& setting.vertical_align == VerticalAlign::Top ==> y == b.min.y.raw
            &&& setting.vertical_align == VerticalAlign::Middle ==> 0 <= (b.max.y.raw - (y
                + total.raw)) - (y - b.min.y.raw) <= 1
            &&& setting.vertical_align == VerticalAlign::Bottom ==> y + total.raw == b.max.y.raw
        }),
{
    lemma_half(setting.bounds.spec_height().spec_minus(total));
}

/// An editor is moved down its box as the rows of its text are: not at all, by half of what is to
/// spare, or by all of it, and never up.
pub proof fn law_editors_stand_as_aligned(align: VerticalAlign, box_height: Fixed, content: Fixed)
    requires
        near(box_height),
        near(content),
    ensures
        ({
            let y = editor_drop(align, box_height, content).raw as int;
            let spare = box_height.raw - content.raw;
            &&& y >= 0
            &&& spare <= 0 || align == VerticalAlign::Top ==> y == 0
            &&& spare > 0 && align == VerticalAlign::Middle ==> 0 <= spare - 2 * y <= 1
            &&& spare > 0 && align == VerticalAlign::Bottom ==> y == spare
        }),
{
    crate::gripping::lemma_half_of(box_height.spec_minus(content));
}

/// The editor of a text that grows is as wide as the canvas allows, up to two thousand; that of any
/// other as wide as its box on the screen, and forty at least.
pub proof fn law_editors_are_as_wide_as_their_box(b: Rect<Fixed>, zoom: Fixed, canvas: Fixed)
    requires
        near_box(b),
    ensures
        editor_width(TextResize::Auto, b, zoom, canvas).raw <= canvas.raw,
        editor_width(TextResize::Auto, b, zoom, canvas).raw <= 2000 * 65536,
        canvas.raw <= 2000 * 65536 ==> editor_width(TextResize::Auto, b, zoom, canvas) == canvas,
        forall|r: TextResize|
            r != TextResize::Auto && zoom.raw == 65536 ==> {
                let w = (#[trigger] editor_width(r, b, zoom, canvas)).raw as int;
                &&& w >= 40 * 65536
                &&& b.max.x.raw - b.min.x.raw >= 40 * 65536 ==> w == b.max.x.raw - b.min.x.raw
                &&& b.max.x.raw - b.min.x.raw <= 40 * 65536 ==> w == 40 * 65536
            },
{
    if zoom.raw == 65536 {
        crate::plane::lemma_times_one(b.spec_width());
        assert(zoom == Fixed::spec_ratio(1, 1));
    }
}

/// Each row begins where the one before ends, with the space of a paragraph between where a paragraph
/// begins; the rows together are as high as from the first to the end of the last.
pub proof fn law_rows_follow_each_other(rows: Seq<RowView<Fixed>>, spacing: Fixed, i: nat)
    requires
        i < rows.len(),
        near(spacing),
        near(rows[i as int].height),
        near(row_offset(rows, spacing, i)),
    ensures
        row_offset(rows, spacing, 0).raw == 0,
        i + 1 < rows.len() ==> row_offset(rows, spacing, i + 1).raw - row_offset(
            rows,
            spacing,
            i,
        ).raw == rows[i as int].height.raw + (if rows[i as int + 1].starts {
            spacing.raw as int
        } else {
            0
        }),
        i + 1 == rows.len() ==> total_height(rows, spacing).raw - row_offset(rows, spacing, i).raw
            == rows[i as int].height.raw,
{
}

/// Whether nothing is cut off when the first `k` characters of a row are set.
pub open spec fn is_modest(
    m: Seq<MetricsView<Fixed>>,
    row: Seq<Tagged>,
    spacing: Fixed,
    extra: Fixed,
    start: Fixed,
    k: nat,
) -> bool {
    &&& -0x1000_0000 <= extra.raw <= 0x1000_0000
    &&& forall|j: nat| j <= k ==> near(#[trigger] width_until(m, row, spacing, j))
    &&& forall|j: nat| j <= k ==> near(#[trigger] pen_after(m, row, spacing, extra, start, j))
    &&& forall|j: int|
        0 <= j < k ==> -0x1000_0000 <= (#[trigger] advance_of(m, row, j, spacing)).raw
            <= 0x1000_0000
    &&& forall|j: int|
        0 <= j < k ==> ((#[trigger] kern_before(m, row, j)) matches Some(v) ==> -0x1000_0000
            <= v.raw <= 0x1000_0000)
}

/// The pen is as far from where a row begins as the characters are wide that it has set, with what is
/// added to each space among them.
pub proof fn law_the_pen_goes_as_far_as_the_row_is_wide(
    m: Seq<MetricsView<Fixed>>,
    row: Seq<Tagged>,
    spacing: Fixed,
    extra: Fixed,
    start: Fixed,
    k: nat,
)
    requires
        is_modest(m, row, spacing, extra, start, k),
    ensures
        pen_after(m, row, spacing, extra, start, k).raw == start.raw + width_until(
            m,
            row,
            spacing,
            k,
        ).raw + gaps_until(row, k) * extra.raw,
    decreases k,
{
    if k > 0 {
        let i = (k - 1) as nat;
        law_the_pen_goes_as_far_as_the_row_is_wide(m, row, spacing, extra, start, i);
        assert(near(pen_after(m, row, spacing, extra, start, i)));
        assert(near(pen_after(m, row, spacing, extra, start, k)));
        assert(near(width_until(m, row, spacing, i)));
        assert(near(width_until(m, row, spacing, k)));
        let a = advance_of(m, row, k - 1, spacing);
        let b = kern_before(m, row, k - 1);
        assert(gaps_until(row, k) * extra.raw == gaps_until(row, i) * extra.raw + (if row[k - 1].c
            == ' ' {
            extra.raw as int
        } else {
            0
        })) by (nonlinear_arith)
            requires
                gaps_until(row, k) == gaps_until(row, i) + (if row[k - 1].c == ' ' {
                    1nat
                } else {
                    0
                }),
        ;
    } else {
        assert(0 * extra.raw == 0);
    }
}

/// A row is stretched only where it is justified, has a space and is narrower than its box; it then
/// fills the box, but for what cannot be shared out evenly.
pub proof fn law_justified_rows_fill_the_box(setting: Setting<Fixed>, row: RowView<Fixed>)
    requires
        near_box(setting.bounds),
        near(row.width),
        gaps_until(row.chars, row.chars.len()) < 30000,
    ensures
        ({
            let gaps = gaps_until(row.chars, row.chars.len()) as int;
            let e = stretch(setting, row).raw as int;
            let spare = setting.bounds.max.x.raw - setting.bounds.min.x.raw - row.width.raw;
            &&& !row.justify || gaps == 0 || spare <= 0 || setting.resize == TextResize::Auto
                ==> e == 0
            &&& row.justify && gaps > 0 && spare > 0 && setting.resize != TextResize::Auto ==> 0
                <= spare - gaps * e < gaps
        }),
{
    let gaps = gaps_until(row.chars, row.chars.len()) as int;
    let b = setting.bounds;
    if row.justify && gaps > 0 && setting.resize != TextResize::Auto {
        let spare = b.max.x.raw - b.min.x.raw - row.width.raw;
        let d = b.spec_width().spec_minus(row.width);
        assert(d.raw == spare);
        let k = Fixed::spec_ratio(gaps, 1);
        assert((gaps * 65536) / 1 == gaps * 65536);
        assert(k.raw == gaps * 65536);
        let q = (spare * 65536) / (gaps * 65536);
        assert(q == spare / gaps && 0 <= spare - gaps * q < gaps && (spare > 0 ==> 0 <= q <= spare)
            && (spare <= 0 ==> spare <= q <= 0)) by (nonlinear_arith)
            requires
                gaps > 0,
                q == (spare * 65536) / (gaps * 65536),
        ;
    }
}

/// In a justified paragraph every row is stretched but the last; only the first begins it.
pub proof fn law_the_last_row_is_not_stretched<S: Scalar>(
    m: Seq<MetricsView<S>>,
    setting: Setting<S>,
    rows: Seq<Seq<Tagged>>,
    i: int,
)
    requires
        0 <= i < rows.len(),
    ensures
        row_of(m, setting, rows, rows.len() - 1).justify == false,
        i + 1 < rows.len() ==> row_of(m, setting, rows, i).justify == (setting.align
            == TextAlign::Justify),
        row_of(m, setting, rows, i).starts <==> i == 0,
        row_of(m, setting, rows, i).chars == rows[i],
{
}

/// The rows of a text are those of its paragraphs, one paragraph after the other.
pub proof fn law_paragraphs_follow_each_other<S: Scalar>(
    m: Seq<MetricsView<S>>,
    setting: Setting<S>,
    lines: Seq<Seq<Tagged>>,
    k: nat,
)
    requires
        k < lines.len(),
    ensures
        ({
            let before = rows_until(m, setting, lines, k);
            let after = rows_until(m, setting, lines, k + 1);
            let here = broken(m, setting, lines[k as int]);
            &&& after.len() == before.len() + here.len()
            &&& forall|i: int| 0 <= i < before.len() ==> #[trigger] after[i] == before[i]
            &&& forall|i: int|
                0 <= i < here.len() ==> (#[trigger] after[before.len() + i]).chars == here[i]
        }),
{
    let here = broken(m, setting, lines[k as int]);
    let before = rows_until(m, setting, lines, k);
    let after = rows_until(m, setting, lines, k + 1);
    assert forall|i: int| 0 <= i < here.len() implies (#[trigger] after[before.len() + i]).chars
        == here[i] by {
        assert(after[before.len() + i] == row_of(m, setting, here, i));
    }
}

/// Where a text wraps: at the width of its box, unless it grows.
pub proof fn law_where_texts_wrap(setting: Setting<Fixed>)
    requires
        near_box(setting.bounds),
    ensures
        setting.resize == TextResize::Auto ==> row_limit(setting) is None,
        setting.resize != TextResize::Auto ==> (row_limit(setting) matches Some(w) && w.raw
            == setting.bounds.max.x.raw - setting.bounds.min.x.raw),
{
}

/// A row with more than one style is as high as the highest of its characters, and its baseline is as
/// far down as any needs; a height that is set holds for every row.
pub proof fn law_rows_are_as_high_as_their_characters(
    m: Seq<MetricsView<Fixed>>,
    setting: Setting<Fixed>,
    row: Seq<Tagged>,
    k: int,
)
    requires
        0 <= k < row.len(),
    ensures
        setting.line_height matches Some(h) ==> row_size(m, setting, row).0 == h,
        setting.line_height is None && !setting.uniform ==> ({
            let size = row_size(m, setting, row);
            let here = m[style_at(row[k].run, m.len())];
            &&& size.0.raw >= here.height.spec_plus(here.line_gap).raw
            &&& size.1.raw >= here.ascent.raw
            &&& size.0.raw > 0 ==> exists|j: int|
                0 <= j < row.len() && m[style_at((#[trigger] row[j]).run, m.len())].height.spec_plus(
                    m[style_at(row[j].run, m.len())].line_gap,
                ) == size.0
            &&& size.1.raw > 0 ==> exists|j: int|
                0 <= j < row.len() && m[style_at((#[trigger] row[j]).run, m.len())].ascent == size.1
        }),
        setting.line_height is None && setting.uniform ==> row_size(m, setting, row).0
            == m[0].height.spec_plus(m[0].line_gap) && row_size(m, setting, row).1 == m[0].ascent,
{
    lemma_tallest(m, row, row.len(), k);
}

proof fn lemma_tallest(m: Seq<MetricsView<Fixed>>, row: Seq<Tagged>, n: nat, k: int)
    requires
        0 < n <= row.len(),
        0 <= k < n,
    ensures
        ({
            let size = tallest(m, row, n);
            let here = m[style_at(row[k].run, m.len())];
            &&& size.0.raw >= here.height.spec_plus(here.line_gap).raw
            &&& size.1.raw >= here.ascent.raw
            &&& size.0.raw >= 0 && size.1.raw >= 0
            &&& size.0.raw > 0 ==> exists|j: int|
                0 <= j < n && m[style_at((#[trigger] row[j]).run, m.len())].height.spec_plus(
                    m[style_at(row[j].run, m.len())].line_gap,
                ) == size.0
            &&& size.1.raw > 0 ==> exists|j: int|
                0 <= j < n && m[style_at((#[trigger] row[j]).run, m.len())].ascent == size.1
        }),
    decreases n,
{
    let i = (n - 1) as nat;
    let t = tallest(m, row, i);
    let size = tallest(m, row, n);
    let here = m[style_at(row[i as int].run, m.len())];
    if i > 0 {
        lemma_tallest(m, row, i, if k < i {
            k
        } else {
            0
        });
    } else {
        assert(tallest(m, row, 0).0.raw == 0 && tallest(m, row, 0).1.raw == 0);
    }
    if size.0.raw > 0 {
        if size.0 != t.0 {
            assert(m[style_at(row[i as int].run, m.len())].height.spec_plus(
                m[style_at(row[i as int].run, m.len())].line_gap,
            ) == size.0);
        }
    }
    if size.1.raw > 0 && size.1 != t.1 {
        assert(m[style_at(row[i as int].run, m.len())].ascent == size.1);
    }
}

/// The style of a character outside of every run is the first; that of one in a run is the run's own.
pub proof fn law_runs_have_their_own_style(n: nat, i: usize)
    requires
        i + 1 < n,
    ensures
        style_at(None, n) == 0,
        style_at(Some(i), n) == i + 1,
{
}

/// A glyph is drawn in the colour of its own style, else in that of the text, else in black.
pub proof fn law_glyphs_have_their_own_colour(looks: Seq<Look<Fixed>>, i: int)
    requires
        0 <= i < looks.len(),
    ensures
        ({
            let c = look_color(looks, i, Fixed::spec_ratio(1, 1));
            &&& looks[i].color matches Some(own) ==> own.a == 255 ==> c == own
            &&& looks[i].color is None ==> (looks[0].color matches Some(own) ==> own.a == 255 ==> c
                == own)
            &&& looks[i].color is None && looks[0].color is None ==> c == (Color32 {
                r: 0,
                g: 0,
                b: 0,
                a: 255,
            })
        }),
{
    let c = match looks[i].color {
        Some(c) => c,
        None => match looks[0].color {
            Some(c) => c,
            None => Color32 { r: 0, g: 0, b: 0, a: 255 },
        },
    };
    crate::pictures::lemma_full_strength(c);
}

/// Underlines are below the baseline and lines through the text above it; both reach from where the
/// stretch begins to where it ends and are one unit thick at least.
pub proof fn law_bars_lie_along_the_row(
    setting: Setting<Fixed>,
    look: Look<Fixed>,
    color: Color32,
    x0: Fixed,
    x1: Fixed,
    baseline: Fixed,
    i: int,
)
    requires
        setting.resize != TextResize::Fixed,
        near(x0) && near(x1) && near(baseline),
        65536 <= look.font_size.raw <= 0x1000_0000,
        x0.raw < x1.raw,
        0 <= i < bars(setting, look, color, x0, x1, baseline).len(),
    ensures
        bars(setting, look, color, x0, x1, baseline).len() == (if look.underline {
            1int
        } else {
            0
        }) + (if look.strikethrough {
            1int
        } else {
            0
        }),
        bars(setting, look, color, x0, x1, baseline)[i] matches TextInk::Bar { rect, color: c }
            && c == color && rect.min.x == x0 && rect.max.x == x1 && rect.max.y.raw
            - rect.min.y.raw >= 65536 && (if i == 0 && look.underline {
            rect.min.y.raw > baseline.raw
        } else {
            rect.min.y.raw < baseline.raw
        }),
{
    let f = look.font_size.raw as int;
    assert(Fixed::spec_ratio(8, 100).raw == 5242);
    assert(Fixed::spec_ratio(3, 10).raw == 19660);
    assert(Fixed::spec_ratio(6, 100).raw == 3932);
    let down = look.font_size.spec_times(Fixed::spec_ratio(8, 100));
    let up = look.font_size.spec_times(Fixed::spec_ratio(3, 10));
    let thick = look.font_size.spec_times(Fixed::spec_ratio(6, 100));
    assert(down.raw == (f * 5242) / 65536);
    assert(up.raw == (f * 19660) / 65536);
    assert(thick.raw == (f * 3932) / 65536);
    assert(Fixed::spec_ratio(1, 1).raw == 65536);
}

/// A text that grows is as large as its content and one unit at least; one of automatic height keeps
/// its width; one of fixed size keeps all. Where it is and how it is turned never changes.
pub proof fn law_fitted_texts_are_as_large_as_their_content(
    v: LayerView<Fixed>,
    measured: Vec2<Fixed>,
)
    requires
        v.kind is Text,
    ensures
        ({
            let w = fitted(v, measured);
            let one = 65536int;
            let tall = measured.y.raw >= one ==> w.frame.size.y == measured.y;
            let wide = measured.x.raw >= one ==> w.frame.size.x == measured.x;
            &&& w.frame.pos == v.frame.pos && w.frame.rotation == v.frame.rotation
            &&& w.kind == v.kind && w.style == v.style && w.id == v.id && w.children == v.children
            &&& v.kind->text.resize == TextResize::Auto ==> tall && wide && w.frame.size.y.raw
                >= one && w.frame.size.x.raw >= one
            &&& v.kind->text.resize == TextResize::AutoHeight ==> tall && w.frame.size.y.raw >= one
                && w.frame.size.x == v.frame.size.x
            &&& v.kind->text.resize == TextResize::Fixed ==> w == v
        }),
{
}

} // verus!
