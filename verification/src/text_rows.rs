//! The rows of a text inside its box, and the glyphs and bars that draw them.
use vstd::prelude::*;

use crate::color::{faded, with_opacity, Color32};
use crate::geometry::{Pos2, Rect, Vec2};
use crate::scalar::Scalar;
use crate::style::copy_vec;
use crate::text::{TextAlign, TextResize, VerticalAlign};
use crate::typesetting::{
    advance_at, advance_of, kern_to, kerned, measure, metrics_views, row_views, row_width, style_at,
    style_index, wrap_line, wrapped, Metrics, MetricsView, Tagged,
};

verus! {

/// How the characters of one style look.
#[derive(Debug, PartialEq)]
pub struct Look<S> {
    pub font_size: S,
    /// The colour of the first style where absent.
    pub color: Option<Color32>,
    pub bold: bool,
    pub italic: bool,
    pub underline: bool,
    pub strikethrough: bool,
}

impl<S: Scalar> Clone for Look<S> {
    fn clone(&self) -> (r: Self)
        ensures
            r == *self,
    {
        *self
    }
}

impl<S: Scalar> Copy for Look<S> {

}

/// How a text is set in its box.
#[derive(Debug, PartialEq)]
pub struct Setting<S> {
    pub bounds: Rect<S>,
    pub align: TextAlign,
    pub vertical_align: VerticalAlign,
    pub resize: TextResize,
    /// The height of every row; each row's own where absent.
    pub line_height: Option<S>,
    pub letter_spacing: S,
    pub paragraph_spacing: S,
    /// Whether the text has one style: bold is then drawn twice, and every row is as high as the
    /// next.
    pub uniform: bool,
    pub opacity: S,
}

impl<S: Scalar> Clone for Setting<S> {
    fn clone(&self) -> (r: Self)
        ensures
            r == *self,
    {
        *self
    }
}

impl<S: Scalar> Copy for Setting<S> {

}

/// One row of a text.
#[derive(Debug, PartialEq)]
pub struct Row<S> {
    pub chars: Vec<Tagged>,
    pub width: S,
    /// Whether its gaps are widened to fill the box.
    pub justify: bool,
    /// Whether a paragraph begins with it.
    pub starts: bool,
    pub height: S,
    pub ascent: S,
}

#[verifier::ext_equal]
pub struct RowView<S> {
    pub chars: Seq<Tagged>,
    pub width: S,
    pub justify: bool,
    pub starts: bool,
    pub height: S,
    pub ascent: S,
}

impl<S: Scalar> Row<S> {
    pub open spec fn view(&self) -> RowView<S> {
        RowView {
            chars: self.chars@,
            width: self.width,
            justify: self.justify,
            starts: self.starts,
            height: self.height,
            ascent: self.ascent,
        }
    }
}

pub open spec fn laid_views<S: Scalar>(rows: Seq<Row<S>>) -> Seq<RowView<S>> {
    Seq::new(rows.len(), |i: int| rows[i]@)
}

/// What draws a text.
#[derive(Debug, PartialEq)]
pub enum TextInk<S> {
    /// A character in one of the text's styles.
    Glyph {
        c: char,
        style: usize,
        x: S,
        baseline: S,
        color: Color32,
        /// Whether it is drawn twice, side by side.
        doubled: bool,
        italic: bool,
        /// The box outside of which none of its pixels shows.
        clip: Option<Rect<S>>,
    },
    /// A line under or through the text.
    Bar { rect: Rect<S>, color: Color32 },
}

/// What cuts off the glyphs of a text: the box of one of fixed size.
pub open spec fn clip_of<S: Scalar>(setting: Setting<S>) -> Option<Rect<S>> {
    if setting.resize == TextResize::Fixed {
        Some(setting.bounds)
    } else {
        None
    }
}

/// What cuts off the glyphs of a text: the box of one of fixed size.
pub fn glyph_clip<S: Scalar>(setting: Setting<S>) -> (r: Option<Rect<S>>)
    ensures
        r == (if setting.resize == TextResize::Fixed {
            Some(setting.bounds)
        } else {
            None
        }),
{
    if matches!(setting.resize, TextResize::Fixed) {
        Some(setting.bounds)
    } else {
        None
    }
}

/// The width at which rows break.
pub open spec fn row_limit<S: Scalar>(setting: Setting<S>) -> Option<S> {
    match setting.resize {
        TextResize::Auto => None,
        _ => Some(setting.bounds.spec_width()),
    }
}

fn limit<S: Scalar>(setting: Setting<S>) -> (r: Option<S>)
    ensures
        r == row_limit(setting),
{
    match setting.resize {
        TextResize::Auto => None,
        _ => Some(setting.bounds.width()),
    }
}

/// The largest step and the largest ascent among the first `k` characters of a row.
pub open spec fn tallest<S: Scalar>(m: Seq<MetricsView<S>>, row: Seq<Tagged>, k: nat) -> (S, S)
    decreases k,
{
    if k == 0 {
        (S::spec_ratio(0, 1), S::spec_ratio(0, 1))
    } else {
        let t = tallest(m, row, (k - 1) as nat);
        let here = m[style_at(row[k - 1].run, m.len())];
        (t.0.spec_greater(here.step()), t.1.spec_greater(here.ascent))
    }
}

/// The height and the ascent of a row.
pub open spec fn row_size<S: Scalar>(
    m: Seq<MetricsView<S>>,
    setting: Setting<S>,
    row: Seq<Tagged>,
) -> (S, S) {
    match setting.line_height {
        Some(h) => (h, m[0].ascent),
        None => if setting.uniform || row.len() == 0 {
            (m[0].step(), m[0].ascent)
        } else {
            tallest(m, row, row.len())
        },
    }
}

fn size_row<S: Scalar>(m: &Vec<Metrics<S>>, setting: Setting<S>, row: &Vec<Tagged>) -> (r: (S, S))
    requires
        m.len() > 0,
    ensures
        r == row_size(metrics_views(m@), setting, row@),
{
    let ghost mv = metrics_views(m@);
    assert(mv[0] == m@[0]@);
    if let Some(h) = setting.line_height {
        return (h, m[0].ascent);
    }
    if setting.uniform || row.len() == 0 {
        return (m[0].height.plus(m[0].line_gap), m[0].ascent);
    }
    let mut height = S::ratio(0, 1);
    let mut ascent = S::ratio(0, 1);
    let mut k: usize = 0;
    while k < row.len()
        invariant
            m.len() > 0,
            mv == metrics_views(m@),
            k <= row.len(),
            (height, ascent) == tallest(mv, row@, k as nat),
        decreases row.len() - k,
    {
        let here = style_index(row[k].run, m.len());
        assert(mv[here as int] == m@[here as int]@);
        height = height.greater(m[here].height.plus(m[here].line_gap));
        ascent = ascent.greater(m[here].ascent);
        k += 1;
    }
    (height, ascent)
}

/// The width of the gap that is put between two words.
pub open spec fn gap_width<S: Scalar>(m: Seq<MetricsView<S>>, setting: Setting<S>) -> S {
    m[0].advance(' ').spec_plus(setting.letter_spacing)
}

/// The rows that a paragraph is broken into.
pub open spec fn broken<S: Scalar>(
    m: Seq<MetricsView<S>>,
    setting: Setting<S>,
    line: Seq<Tagged>,
) -> Seq<Seq<Tagged>> {
    wrapped(m, line, setting.letter_spacing, gap_width(m, setting), row_limit(setting))
}

/// The `i`-th of the rows of a paragraph.
pub open spec fn row_of<S: Scalar>(
    m: Seq<MetricsView<S>>,
    setting: Setting<S>,
    rows: Seq<Seq<Tagged>>,
    i: int,
) -> RowView<S> {
    let size = row_size(m, setting, rows[i]);
    RowView {
        chars: rows[i],
        width: row_width(m, rows[i], setting.letter_spacing),
        justify: setting.align == TextAlign::Justify && i + 1 < rows.len(),
        starts: i == 0,
        height: size.0,
        ascent: size.1,
    }
}

/// The rows of the first `k` paragraphs.
pub open spec fn rows_until<S: Scalar>(
    m: Seq<MetricsView<S>>,
    setting: Setting<S>,
    lines: Seq<Seq<Tagged>>,
    k: nat,
) -> Seq<RowView<S>>
    decreases k,
{
    if k == 0 {
        Seq::empty()
    } else {
        let rows = broken(m, setting, lines[k - 1]);
        rows_until(m, setting, lines, (k - 1) as nat) + Seq::new(
            rows.len(),
            |i: int| row_of(m, setting, rows, i),
        )
    }
}

/// The rows of a text, given its paragraphs.
pub fn lay_rows<S: Scalar>(m: &Vec<Metrics<S>>, setting: Setting<S>, lines: &Vec<Vec<Tagged>>) -> (r:
    Vec<Row<S>>)
    requires
        m.len() > 0,
    ensures
        laid_views(r@) == rows_until(
            metrics_views(m@),
            setting,
            row_views(lines@),
            lines@.len(),
        ),
{
    let ghost mv = metrics_views(m@);
    let ghost ls = row_views(lines@);
    let spacing = setting.letter_spacing;
    let space = m[0].advance(' ').plus(spacing);
    assert(mv[0] == m@[0]@);
    let max = limit(setting);
    let mut out: Vec<Row<S>> = Vec::new();
    let mut k: usize = 0;
    assert(laid_views(out@) =~= Seq::empty());
    while k < lines.len()
        invariant
            m.len() > 0,
            mv == metrics_views(m@),
            ls == row_views(lines@),
            spacing == setting.letter_spacing,
            space == gap_width(mv, setting),
            max == row_limit(setting),
            k <= lines.len(),
            laid_views(out@) == rows_until(mv, setting, ls, k as nat),
        decreases lines.len() - k,
    {
        assert(ls[k as int] == lines@[k as int]@);
        let rows = wrap_line(m, &lines[k], spacing, space, max);
        let ghost rv = broken(mv, setting, ls[k as int]);
        assert(rv == row_views(rows@));
        let ghost before = laid_views(out@);
        let n = rows.len();
        let mut i: usize = 0;
        assert(Seq::new(0, |i: int| row_of(mv, setting, rv, i)) =~= Seq::empty());
        while i < n
            invariant
                m.len() > 0,
                mv == metrics_views(m@),
                n == rows.len(),
                rv == row_views(rows@),
                spacing == setting.letter_spacing,
                i <= n,
                laid_views(out@) == before + Seq::new(
                    i as nat,
                    |i: int| row_of(mv, setting, rv, i),
                ),
            decreases n - i,
        {
            assert(rv[i as int] == rows@[i as int]@);
            let width = measure(m, &rows[i], spacing);
            let (height, ascent) = size_row(m, setting, &rows[i]);
            let ghost was = out@;
            out.push(
                Row {
                    chars: copy_vec(&rows[i]),
                    width,
                    justify: matches!(setting.align, TextAlign::Justify) && i + 1 < n,
                    starts: i == 0,
                    height,
                    ascent,
                },
            );
            assert(laid_views(out@) =~= laid_views(was).push(row_of(mv, setting, rv, i as int)));
            i += 1;
            assert(laid_views(out@) =~= before + Seq::new(
                i as nat,
                |i: int| row_of(mv, setting, rv, i),
            ));
        }
        k += 1;
    }
    out
}

/// How far below the first row the `i`-th stands.
pub open spec fn row_offset<S: Scalar>(rows: Seq<RowView<S>>, spacing: S, i: nat) -> S
    decreases i,
{
    if i == 0 {
        S::spec_ratio(0, 1)
    } else {
        let y = row_offset(rows, spacing, (i - 1) as nat).spec_plus(rows[i - 1].height);
        if rows[i as int].starts {
            y.spec_plus(spacing)
        } else {
            y
        }
    }
}

/// The height of all rows.
pub open spec fn total_height<S: Scalar>(rows: Seq<RowView<S>>, spacing: S) -> S {
    if rows.len() == 0 {
        S::spec_ratio(0, 1).spec_plus(S::spec_ratio(0, 1))
    } else {
        row_offset(rows, spacing, (rows.len() - 1) as nat).spec_plus(rows.last().height)
    }
}

/// Where the first row begins.
pub open spec fn first_top<S: Scalar>(setting: Setting<S>, total: S) -> S {
    let b = setting.bounds;
    match setting.vertical_align {
        VerticalAlign::Top => b.min.y,
        VerticalAlign::Middle => b.min.y.spec_plus(
            b.spec_height().spec_minus(total).spec_over(S::spec_ratio(2, 1)),
        ),
        VerticalAlign::Bottom => b.min.y.spec_plus(b.spec_height()).spec_minus(total),
    }
}

fn top_of<S: Scalar>(setting: Setting<S>, total: S) -> (r: S)
    ensures
        r == first_top(setting, total),
{
    let b = setting.bounds;
    match setting.vertical_align {
        VerticalAlign::Top => b.min.y,
        VerticalAlign::Middle => b.min.y.plus(b.height().minus(total).over(S::ratio(2, 1))),
        VerticalAlign::Bottom => b.min.y.plus(b.height()).minus(total),
    }
}

/// Where a row begins.
pub open spec fn row_left<S: Scalar>(setting: Setting<S>, width: S) -> S {
    let b = setting.bounds;
    match setting.align {
        TextAlign::Left | TextAlign::Justify => b.min.x,
        TextAlign::Center => b.min.x.spec_plus(
            b.spec_width().spec_minus(width).spec_over(S::spec_ratio(2, 1)),
        ),
        TextAlign::Right => b.max.x.spec_minus(width),
    }
}

fn left_of<S: Scalar>(setting: Setting<S>, width: S) -> (r: S)
    ensures
        r == row_left(setting, width),
{
    let b = setting.bounds;
    match setting.align {
        TextAlign::Left | TextAlign::Justify => b.min.x,
        TextAlign::Center => b.min.x.plus(b.width().minus(width).over(S::ratio(2, 1))),
        TextAlign::Right => b.max.x.minus(width),
    }
}

/// How many of the first `k` characters are spaces.
pub open spec fn gaps_until(row: Seq<Tagged>, k: nat) -> nat
    decreases k,
{
    if k == 0 {
        0
    } else {
        gaps_until(row, (k - 1) as nat) + if row[k - 1].c == ' ' {
            1nat
        } else {
            0
        }
    }
}

/// What a justified row adds to each space.
pub open spec fn stretch<S: Scalar>(setting: Setting<S>, row: RowView<S>) -> S {
    let gaps = gaps_until(row.chars, row.chars.len());
    match row_limit(setting) {
        Some(max) => if row.justify && gaps > 0 {
            max.spec_minus(row.width).spec_over(S::spec_ratio(gaps as int, 1)).spec_greater(
                S::spec_ratio(0, 1),
            )
        } else {
            S::spec_ratio(0, 1)
        },
        None => S::spec_ratio(0, 1),
    }
}

fn stretch_of<S: Scalar>(setting: Setting<S>, row: &Row<S>) -> (r: S)
    ensures
        r == stretch(setting, row@),
{
    let n = row.chars.len();
    let mut gaps: usize = 0;
    let mut k: usize = 0;
    while k < n
        invariant
            n == row.chars.len(),
            k <= n,
            gaps == gaps_until(row.chars@, k as nat),
            gaps <= k,
        decreases n - k,
    {
        if row.chars[k].c == ' ' {
            gaps += 1;
        }
        k += 1;
    }
    match limit(setting) {
        Some(max) => if row.justify && gaps > 0 {
            max.minus(row.width).over(S::of_count(gaps as u64)).greater(S::ratio(0, 1))
        } else {
            S::ratio(0, 1)
        },
        None => S::ratio(0, 1),
    }
}

/// Where the pen is after the first `k` characters of a row.
pub open spec fn pen_after<S: Scalar>(
    m: Seq<MetricsView<S>>,
    row: Seq<Tagged>,
    spacing: S,
    extra: S,
    start: S,
    k: nat,
) -> S
    decreases k,
{
    if k == 0 {
        start
    } else {
        let x = kerned(
            m,
            row,
            k - 1,
            pen_after(m, row, spacing, extra, start, (k - 1) as nat),
        ).spec_plus(advance_of(m, row, k - 1, spacing));
        if row[k - 1].c == ' ' {
            x.spec_plus(extra)
        } else {
            x
        }
    }
}

/// Where the `k`-th glyph of a row stands.
pub open spec fn glyph_x<S: Scalar>(
    m: Seq<MetricsView<S>>,
    row: Seq<Tagged>,
    spacing: S,
    extra: S,
    start: S,
    k: nat,
) -> S {
    kerned(m, row, k as int, pen_after(m, row, spacing, extra, start, k))
}

/// The colour of a style.
pub open spec fn look_color<S: Scalar>(looks: Seq<Look<S>>, i: int, opacity: S) -> Color32 {
    faded(
        match looks[i].color {
            Some(c) => c,
            None => match looks[0].color {
                Some(c) => c,
                None => Color32 { r: 0, g: 0, b: 0, a: 255 },
            },
        },
        opacity,
    )
}

fn color_of<S: Scalar>(looks: &Vec<Look<S>>, i: usize, opacity: S) -> (r: Color32)
    requires
        i < looks.len(),
    ensures
        r == look_color(looks@, i as int, opacity),
{
    let c = match looks[i].color {
        Some(c) => c,
        None => match looks[0].color {
            Some(c) => c,
            None => Color32 { r: 0, g: 0, b: 0, a: 255 },
        },
    };
    with_opacity(c, opacity)
}

/// The `k`-th glyph of a row that begins at `start` on a baseline.
pub open spec fn glyph<S: Scalar>(
    m: Seq<MetricsView<S>>,
    looks: Seq<Look<S>>,
    setting: Setting<S>,
    row: RowView<S>,
    baseline: S,
    k: nat,
) -> TextInk<S> {
    let style = style_at(row.chars[k as int].run, m.len());
    TextInk::Glyph {
        c: row.chars[k as int].c,
        style: style as usize,
        x: glyph_x(
            m,
            row.chars,
            setting.letter_spacing,
            stretch(setting, row),
            row_left(setting, row.width),
            k,
        ),
        baseline,
        color: look_color(looks, style, setting.opacity),
        doubled: setting.uniform && looks[style].bold,
        italic: looks[style].italic,
        clip: clip_of(setting),
    }
}

/// Whether two styles draw one line under or through their characters.
pub open spec fn draws_alike<S>(a: Look<S>, b: Look<S>) -> bool {
    a.underline == b.underline && a.strikethrough == b.strikethrough && a.color == b.color
}

fn same_color(a: Option<Color32>, b: Option<Color32>) -> (r: bool)
    ensures
        r == (a == b),
{
    match (a, b) {
        (Some(a), Some(b)) => a == b,
        (None, None) => true,
        _ => false,
    }
}

fn alike<S: Scalar>(a: Look<S>, b: Look<S>) -> (r: bool)
    ensures
        r == draws_alike(a, b),
{
    a.underline == b.underline && a.strikethrough == b.strikethrough && same_color(
        a.color,
        b.color,
    )
}

/// The look of the `k`-th character of a row.
pub open spec fn look_at<S: Scalar>(looks: Seq<Look<S>>, row: Seq<Tagged>, k: int) -> Look<S> {
    looks[style_at(row[k].run, looks.len())]
}

/// Where the stretch of like characters ends that begins at `i` and reaches `j` at least.
pub open spec fn stretch_end<S: Scalar>(
    looks: Seq<Look<S>>,
    row: Seq<Tagged>,
    i: int,
    j: int,
) -> int
    decreases row.len() - j,
{
    if j < row.len() && draws_alike(look_at(looks, row, j), look_at(looks, row, i)) {
        stretch_end(looks, row, i, j + 1)
    } else {
        j
    }
}

/// A stretch does not end before it was looked at.
pub proof fn lemma_stretch_end<S: Scalar>(looks: Seq<Look<S>>, row: Seq<Tagged>, i: int, j: int)
    ensures
        stretch_end(looks, row, i, j) >= j,
        j <= row.len() ==> stretch_end(looks, row, i, j) <= row.len(),
    decreases row.len() - j,
{
    if j < row.len() && draws_alike(look_at(looks, row, j), look_at(looks, row, i)) {
        lemma_stretch_end(looks, row, i, j + 1);
    }
}

/// A bar, cut to the box of a text of fixed size; none where nothing of it is left.
pub open spec fn bar<S: Scalar>(setting: Setting<S>, rect: Rect<S>, color: Color32) -> Seq<
    TextInk<S>,
> {
    let zero = S::spec_ratio(0, 1);
    let r = if setting.resize == TextResize::Fixed {
        rect.spec_intersect(setting.bounds)
    } else {
        rect
    };
    if zero.spec_lt(r.spec_width()) && zero.spec_lt(r.spec_height()) {
        seq![TextInk::Bar { rect: r, color }]
    } else {
        Seq::empty()
    }
}

fn push_bar<S: Scalar>(setting: Setting<S>, rect: Rect<S>, color: Color32, out: &mut Vec<TextInk<S>>)
    ensures
        final(out)@ == old(out)@ + bar(setting, rect, color),
{
    let zero = S::ratio(0, 1);
    let r = if matches!(setting.resize, TextResize::Fixed) {
        rect.intersect(setting.bounds)
    } else {
        rect
    };
    if zero.is_lt(r.width()) && zero.is_lt(r.height()) {
        out.push(TextInk::Bar { rect: r, color });
    }
    assert(out@ =~= old(out)@ + bar(setting, rect, color));
}

/// The bars of a stretch from `x0` to `x1`.
pub open spec fn bars<S: Scalar>(
    setting: Setting<S>,
    look: Look<S>,
    color: Color32,
    x0: S,
    x1: S,
    baseline: S,
) -> Seq<TextInk<S>> {
    let thickness = look.font_size.spec_times(S::spec_ratio(6, 100)).spec_greater(
        S::spec_ratio(1, 1),
    );
    let size = Vec2 { x: x1.spec_minus(x0), y: thickness };
    if x0.spec_lt(x1) {
        (if look.underline {
            bar(
                setting,
                Rect::spec_from_min_size(
                    Pos2 {
                        x: x0,
                        y: baseline.spec_plus(look.font_size.spec_times(S::spec_ratio(8, 100))),
                    },
                    size,
                ),
                color,
            )
        } else {
            Seq::empty()
        }) + (if look.strikethrough {
            bar(
                setting,
                Rect::spec_from_min_size(
                    Pos2 {
                        x: x0,
                        y: baseline.spec_minus(look.font_size.spec_times(S::spec_ratio(3, 10))),
                    },
                    size,
                ),
                color,
            )
        } else {
            Seq::empty()
        })
    } else {
        Seq::empty()
    }
}

fn push_bars<S: Scalar>(
    setting: Setting<S>,
    look: Look<S>,
    color: Color32,
    x0: S,
    x1: S,
    baseline: S,
    out: &mut Vec<TextInk<S>>,
)
    ensures
        final(out)@ == old(out)@ + bars(setting, look, color, x0, x1, baseline),
{
    if x0.is_lt(x1) {
        let thickness = look.font_size.times(S::ratio(6, 100)).greater(S::ratio(1, 1));
        let size = Vec2 { x: x1.minus(x0), y: thickness };
        if look.underline {
            let y = baseline.plus(look.font_size.times(S::ratio(8, 100)));
            push_bar(setting, Rect::from_min_size(Pos2 { x: x0, y }, size), color, out);
        }
        if look.strikethrough {
            let y = baseline.minus(look.font_size.times(S::ratio(3, 10)));
            push_bar(setting, Rect::from_min_size(Pos2 { x: x0, y }, size), color, out);
        }
    }
    assert(out@ =~= old(out)@ + bars(setting, look, color, x0, x1, baseline));
}

/// The bars of a row from its `i`-th character on.
pub open spec fn bars_from<S: Scalar>(
    m: Seq<MetricsView<S>>,
    looks: Seq<Look<S>>,
    setting: Setting<S>,
    row: RowView<S>,
    baseline: S,
    i: nat,
) -> Seq<TextInk<S>>
    decreases row.chars.len() - i,
{
    if i >= row.chars.len() {
        Seq::empty()
    } else {
        let j = stretch_end(looks, row.chars, i as int, (i + 1) as int);
        proof {
            lemma_stretch_end(looks, row.chars, i as int, (i + 1) as int);
        }
        let style = style_at(row.chars[i as int].run, looks.len());
        let extra = stretch(setting, row);
        let start = row_left(setting, row.width);
        bars(
            setting,
            looks[style],
            look_color(looks, style, setting.opacity),
            glyph_x(m, row.chars, setting.letter_spacing, extra, start, i),
            pen_after(m, row.chars, setting.letter_spacing, extra, start, j as nat),
            baseline,
        ) + bars_from(m, looks, setting, row, baseline, j as nat)
    }
}

/// What draws a row: its glyphs, then its bars.
pub open spec fn row_ink<S: Scalar>(
    m: Seq<MetricsView<S>>,
    looks: Seq<Look<S>>,
    setting: Setting<S>,
    row: RowView<S>,
    baseline: S,
) -> Seq<TextInk<S>> {
    Seq::new(row.chars.len(), |k: int| glyph(m, looks, setting, row, baseline, k as nat))
        + bars_from(m, looks, setting, row, baseline, 0)
}

/// Draws a row.
#[verifier::rlimit(50)]
fn push_row<S: Scalar>(
    m: &Vec<Metrics<S>>,
    looks: &Vec<Look<S>>,
    setting: Setting<S>,
    row: &Row<S>,
    baseline: S,
    out: &mut Vec<TextInk<S>>,
)
    requires
        m.len() > 0,
        looks.len() == m.len(),
    ensures
        final(out)@ == old(out)@ + row_ink(metrics_views(m@), looks@, setting, row@, baseline),
{
    let ghost mv = metrics_views(m@);
    let ghost rv = row@;
    let n = row.chars.len();
    let extra = stretch_of(setting, row);
    let start = left_of(setting, row.width);
    let spacing = setting.letter_spacing;
    let mut before: Vec<S> = Vec::new();
    let mut after: Vec<S> = Vec::new();
    let mut x = start;
    let mut k: usize = 0;
    assert(out@ =~= old(out)@ + Seq::new(
        0,
        |k: int| glyph(mv, looks@, setting, rv, baseline, k as nat),
    ));
    while k < n
        invariant
            m.len() > 0,
            looks.len() == m.len(),
            mv == metrics_views(m@),
            rv == row@,
            n == row.chars.len(),
            extra == stretch(setting, rv),
            start == row_left(setting, rv.width),
            spacing == setting.letter_spacing,
            k <= n,
            x == pen_after(mv, rv.chars, spacing, extra, start, k as nat),
            before.len() == k,
            after.len() == k,
            forall|i: int|
                0 <= i < k ==> #[trigger] before@[i] == glyph_x(
                    mv,
                    rv.chars,
                    spacing,
                    extra,
                    start,
                    i as nat,
                ),
            forall|i: int|
                0 <= i < k ==> #[trigger] after@[i] == pen_after(
                    mv,
                    rv.chars,
                    spacing,
                    extra,
                    start,
                    (i + 1) as nat,
                ),
            out@ == old(out)@ + Seq::new(
                k as nat,
                |k: int| glyph(mv, looks@, setting, rv, baseline, k as nat),
            ),
        decreases n - k,
    {
        let style = style_index(row.chars[k].run, m.len());
        let at = kern_to(m, &row.chars, k, x);
        let ghost was = out@;
        out.push(
            TextInk::Glyph {
                c: row.chars[k].c,
                style,
                x: at,
                baseline,
                color: color_of(looks, style, setting.opacity),
                doubled: setting.uniform && looks[style].bold,
                italic: looks[style].italic,
                clip: glyph_clip(setting),
            },
        );
        before.push(at);
        x = at.plus(advance_at(m, &row.chars, k, spacing));
        if row.chars[k].c == ' ' {
            x = x.plus(extra);
        }
        after.push(x);
        k += 1;
        assert(out@ =~= old(out)@ + Seq::new(
            k as nat,
            |k: int| glyph(mv, looks@, setting, rv, baseline, k as nat),
        ));
    }
    let ghost glyphs = out@;
    let mut i: usize = 0;
    while i < n
        invariant
            m.len() > 0,
            looks.len() == m.len(),
            mv == metrics_views(m@),
            rv == row@,
            n == row.chars.len(),
            extra == stretch(setting, rv),
            start == row_left(setting, rv.width),
            spacing == setting.letter_spacing,
            i <= n,
            before.len() == n,
            after.len() == n,
            forall|i: int|
                0 <= i < n ==> #[trigger] before@[i] == glyph_x(
                    mv,
                    rv.chars,
                    spacing,
                    extra,
                    start,
                    i as nat,
                ),
            forall|i: int|
                0 <= i < n ==> #[trigger] after@[i] == pen_after(
                    mv,
                    rv.chars,
                    spacing,
                    extra,
                    start,
                    (i + 1) as nat,
                ),
            out@ + bars_from(mv, looks@, setting, rv, baseline, i as nat) == glyphs + bars_from(
                mv,
                looks@,
                setting,
                rv,
                baseline,
                0,
            ),
        decreases n - i,
    {
        let style = style_index(row.chars[i].run, looks.len());
        let look = looks[style];
        let mut j: usize = i + 1;
        let ghost end = stretch_end(looks@, rv.chars, i as int, i + 1);
        proof {
            lemma_stretch_end(looks@, rv.chars, i as int, i + 1);
        }
        while j < n && alike(looks[style_index(row.chars[j].run, looks.len())], look)
            invariant
                looks.len() > 0,
                rv == row@,
                n == row.chars.len(),
                i < j <= n,
                look == look_at(looks@, rv.chars, i as int),
                end == stretch_end(looks@, rv.chars, i as int, j as int),
            decreases n - j,
        {
            j += 1;
        }
        let ghost was = out@;
        let color = color_of(looks, style, setting.opacity);
        push_bars(setting, look, color, before[i], after[j - 1], baseline, out);
        proof {
            let rest = bars_from(mv, looks@, setting, rv, baseline, j as nat);
            let here = bars(setting, look, color, before@[i as int], after@[j - 1], baseline);
            assert(bars_from(mv, looks@, setting, rv, baseline, i as nat) == here + rest);
            assert((was + here) + rest =~= was + (here + rest));
        }
        i = j;
    }
    assert(out@ + Seq::<TextInk<S>>::empty() =~= out@);
    assert(bars_from(mv, looks@, setting, rv, baseline, n as nat) == Seq::<TextInk<S>>::empty());
    assert(out@ =~= old(out)@ + row_ink(mv, looks@, setting, rv, baseline));
}

/// What draws the first `k` rows.
pub open spec fn ink_until<S: Scalar>(
    m: Seq<MetricsView<S>>,
    looks: Seq<Look<S>>,
    setting: Setting<S>,
    rows: Seq<RowView<S>>,
    k: nat,
) -> Seq<TextInk<S>>
    decreases k,
{
    if k == 0 {
        Seq::empty()
    } else {
        let top = first_top(setting, total_height(rows, setting.paragraph_spacing));
        let i = (k - 1) as nat;
        ink_until(m, looks, setting, rows, i) + row_ink(
            m,
            looks,
            setting,
            rows[i as int],
            top.spec_plus(row_offset(rows, setting.paragraph_spacing, i)).spec_plus(
                rows[i as int].ascent,
            ),
        )
    }
}

/// What draws a text of the given paragraphs.
pub open spec fn text_ink<S: Scalar>(
    m: Seq<MetricsView<S>>,
    looks: Seq<Look<S>>,
    setting: Setting<S>,
    lines: Seq<Seq<Tagged>>,
) -> Seq<TextInk<S>> {
    let rows = rows_until(m, setting, lines, lines.len());
    ink_until(m, looks, setting, rows, rows.len())
}

/// Whether a glyph is cut off at the box, or a bar is the part of one that is inside.
pub open spec fn is_cut_to<S: Scalar>(ink: TextInk<S>, bounds: Rect<S>) -> bool {
    match ink {
        TextInk::Glyph { clip, .. } => clip == Some(bounds),
        TextInk::Bar { rect, .. } => exists|whole: Rect<S>|
            rect == #[trigger] whole.spec_intersect(bounds),
    }
}

/// Whether all of what is drawn is cut to the box.
spec fn are_cut_to<S: Scalar>(ink: Seq<TextInk<S>>, bounds: Rect<S>) -> bool {
    forall|i: int| 0 <= i < ink.len() ==> is_cut_to(#[trigger] ink[i], bounds)
}

proof fn lemma_bars_are_cut<S: Scalar>(
    m: Seq<MetricsView<S>>,
    looks: Seq<Look<S>>,
    setting: Setting<S>,
    row: RowView<S>,
    baseline: S,
    i: nat,
)
    requires
        setting.resize == TextResize::Fixed,
    ensures
        are_cut_to(bars_from(m, looks, setting, row, baseline, i), setting.bounds),
    decreases row.chars.len() - i,
{
    if i < row.chars.len() {
        let j = stretch_end(looks, row.chars, i as int, (i + 1) as int);
        lemma_stretch_end(looks, row.chars, i as int, (i + 1) as int);
        lemma_bars_are_cut(m, looks, setting, row, baseline, j as nat);
    }
}

proof fn lemma_ink_is_cut<S: Scalar>(
    m: Seq<MetricsView<S>>,
    looks: Seq<Look<S>>,
    setting: Setting<S>,
    rows: Seq<RowView<S>>,
    k: nat,
)
    requires
        setting.resize == TextResize::Fixed,
    ensures
        are_cut_to(ink_until(m, looks, setting, rows, k), setting.bounds),
    decreases k,
{
    if k > 0 {
        let i = (k - 1) as nat;
        let top = first_top(setting, total_height(rows, setting.paragraph_spacing));
        let baseline = top.spec_plus(row_offset(rows, setting.paragraph_spacing, i)).spec_plus(
            rows[i as int].ascent,
        );
        lemma_ink_is_cut(m, looks, setting, rows, i);
        lemma_bars_are_cut(m, looks, setting, rows[i as int], baseline, 0);
    }
}

/// Nothing of a text of fixed size is drawn outside of its box: every glyph is cut off there, and
/// of every bar only the part inside is drawn.
pub proof fn law_fixed_text_stays_in_its_box<S: Scalar>(
    m: Seq<MetricsView<S>>,
    looks: Seq<Look<S>>,
    setting: Setting<S>,
    lines: Seq<Seq<Tagged>>,
)
    requires
        setting.resize == TextResize::Fixed,
    ensures
        forall|i: int|
            0 <= i < text_ink(m, looks, setting, lines).len() ==> is_cut_to(
                #[trigger] text_ink(m, looks, setting, lines)[i],
                setting.bounds,
            ),
{
    let rows = rows_until(m, setting, lines, lines.len());
    lemma_ink_is_cut(m, looks, setting, rows, rows.len());
}

/// What draws a text: `lines` are its paragraphs, `m` and `looks` its styles, the first of them
/// for what is in no run.
pub fn draw_text_rich<S: Scalar>(
    m: &Vec<Metrics<S>>,
    looks: &Vec<Look<S>>,
    setting: Setting<S>,
    lines: &Vec<Vec<Tagged>>,
) -> (r: Vec<TextInk<S>>)
    requires
        m.len() > 0,
        looks.len() == m.len(),
    ensures
        r@ == text_ink(metrics_views(m@), looks@, setting, row_views(lines@)),
{
    let ghost mv = metrics_views(m@);
    let rows = lay_rows(m, setting, lines);
    let ghost rv = laid_views(rows@);
    let n = rows.len();
    let spacing = setting.paragraph_spacing;
    let mut offsets: Vec<S> = Vec::new();
    let mut y = S::ratio(0, 1);
    let mut i: usize = 0;
    while i < n
        invariant
            n == rows.len(),
            rv == laid_views(rows@),
            i <= n,
            offsets.len() == i,
            i > 0 ==> y == row_offset(rv, spacing, (i - 1) as nat),
            i == 0 ==> y == S::spec_ratio(0, 1),
            forall|k: int| 0 <= k < i ==> #[trigger] offsets@[k] == row_offset(rv, spacing, k as nat),
        decreases n - i,
    {
        if i > 0 {
            assert(rv[i - 1] == rows@[i - 1]@);
            y = y.plus(rows[i - 1].height);
            assert(rv[i as int] == rows@[i as int]@);
            if rows[i].starts {
                y = y.plus(spacing);
            }
        }
        offsets.push(y);
        i += 1;
    }
    let last_height = if n > 0 {
        assert(rv.last() == rows@[n - 1]@);
        rows[n - 1].height
    } else {
        S::ratio(0, 1)
    };
    let total = y.plus(last_height);
    assert(total == total_height(rv, spacing));
    let top = top_of(setting, total);
    let mut out: Vec<TextInk<S>> = Vec::new();
    let mut k: usize = 0;
    while k < n
        invariant
            m.len() > 0,
            looks.len() == m.len(),
            mv == metrics_views(m@),
            n == rows.len(),
            rv == laid_views(rows@),
            spacing == setting.paragraph_spacing,
            top == first_top(setting, total_height(rv, spacing)),
            offsets.len() == n,
            forall|k: int| 0 <= k < n ==> #[trigger] offsets@[k] == row_offset(rv, spacing, k as nat),
            k <= n,
            out@ == ink_until(mv, looks@, setting, rv, k as nat),
        decreases n - k,
    {
        assert(rv[k as int] == rows@[k as int]@);
        let baseline = top.plus(offsets[k]).plus(rows[k].ascent);
        push_row(m, looks, setting, &rows[k], baseline, &mut out);
        k += 1;
    }
    out
}

} // verus!
