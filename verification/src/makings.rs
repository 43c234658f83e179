//! What layers are made of when they are combined, copied, rounded or resized.
use vstd::prelude::*;

use crate::app::{outlined, selection_target};
use crate::boolean_ops::{all_points, compound_layer, fold_program, point_box, program, StepView};
use crate::canvas::Session;
use crate::color::Color32;
use crate::edits::{edited, edited_each, edited_one, EditView};
use crate::fixed::Fixed;
use crate::fonts::{bold_face, regular_face, FontFile};
use crate::geometry::{Pos2, Rect, Vec2};
use crate::glyphs::text_setting;
use crate::gripping::{around, lemma_around};
use crate::grouping::{copy_of, spec_default_duplicate_offset};
use crate::image_commands::{cropped, overlay_color, repainted};
use crate::model::{BoolOp, CornerRadii, KindView, LayerId, LayerView, PolygonView};
use crate::outlines::{rounded_outline, OutlineView, PathStep};
use crate::plane::{lemma_times_one, near, near_box, near_point};
use crate::records::{is_shallow, lemma_changed_layer};
use crate::scalar::Scalar;
use crate::shapes::fitted_radius;
use crate::style::{StrokeView, StyleView};
use crate::text::{TextFontView, TextResize};
use crate::text_rows::{glyph, Look, RowView, Setting, TextInk};
use crate::transform::{
    scaled_corners, scaled_radii, scaled_style, shown_bounds, tight_bounds,
};
use crate::tree::find;
use crate::typesetting::{style_at, MetricsView};

verus! {

/// The box of some points holds each and touches one on each side.
pub proof fn law_the_box_of_points_is_tight(points: Seq<Pos2<Fixed>>, i: int)
    requires
        0 <= i < points.len(),
    ensures
        ({
            let b = point_box(points);
            let p = points[i];
            &&& b.min.x.raw <= p.x.raw <= b.max.x.raw && b.min.y.raw <= p.y.raw <= b.max.y.raw
            &&& exists|j: int| 0 <= j < points.len() && (#[trigger] points[j]).x == b.min.x
            &&& exists|j: int| 0 <= j < points.len() && (#[trigger] points[j]).y == b.min.y
            &&& exists|j: int| 0 <= j < points.len() && (#[trigger] points[j]).x == b.max.x
            &&& exists|j: int| 0 <= j < points.len() && (#[trigger] points[j]).y == b.max.y
        }),
{
    let boxes = Seq::new(points.len(), |k: int| Rect { min: points[k], max: points[k] });
    lemma_point_box(points);
    lemma_around(boxes, i);
    let all = around(boxes);
    let a = choose|j: int| 0 <= j < boxes.len() && (#[trigger] boxes[j]).min.x == all.min.x;
    let b = choose|j: int| 0 <= j < boxes.len() && (#[trigger] boxes[j]).min.y == all.min.y;
    let c = choose|j: int| 0 <= j < boxes.len() && (#[trigger] boxes[j]).max.x == all.max.x;
    let d = choose|j: int| 0 <= j < boxes.len() && (#[trigger] boxes[j]).max.y == all.max.y;
    assert(points[a].x == all.min.x && points[b].y == all.min.y);
    assert(points[c].x == all.max.x && points[d].y == all.max.y);
}

proof fn lemma_point_box(points: Seq<Pos2<Fixed>>)
    requires
        points.len() > 0,
    ensures
        point_box(points) == around(
            Seq::new(points.len(), |k: int| Rect { min: points[k], max: points[k] }),
        ),
    decreases points.len(),
{
    let boxes = Seq::new(points.len(), |k: int| Rect { min: points[k], max: points[k] });
    if points.len() > 1 {
        let t = points.drop_last();
        lemma_point_box(t);
        assert(Seq::new(t.len(), |k: int| Rect { min: t[k], max: t[k] }) =~= boxes.drop_last());
    }
}

/// The layer of a combined shape has the box of its points for its frame, and each point, holes included,
/// as far from the corner of the frame as it is on the page.
pub proof fn law_combined_shapes_stay_in_place(
    id: LayerId,
    name: Seq<char>,
    style: StyleView<Fixed>,
    polygons: Seq<PolygonView<Fixed>>,
    i: int,
    j: int,
    k: int,
)
    requires
        0 <= i < polygons.len(),
        0 <= j < polygons[i].exterior.len(),
        near_point(polygons[i].exterior[j]),
        near_box(point_box(all_points(polygons))),
    ensures
        ({
            let b = point_box(all_points(polygons));
            let v = compound_layer(id, name, style, polygons);
            let p = polygons[i];
            &&& v.id == id && v.name == name && v.style == style && v.frame.rotation.raw == 0
            &&& v.frame.pos == b.min && v.frame.spec_end() == b.max
            &&& v.kind matches KindView::CompoundPath { polygons: q } && q.len() == polygons.len()
                && q[i].exterior.len() == p.exterior.len() && q[i].holes.len() == p.holes.len()
                && q[i].exterior[j].spec_plus(v.frame.pos.spec_to_vec2()) == p.exterior[j] && (0 <= k
                < p.holes.len() && 0 <= j < p.holes[k].len() && near_point(p.holes[k][j])
                ==> q[i].holes[k][j].spec_plus(v.frame.pos.spec_to_vec2()) == p.holes[k][j])
        }),
{
}

/// Combining by one operation joins each layer to what those behind it make, by that operation.
pub proof fn law_one_operation_joins_all<S: Scalar>(
    s: Seq<LayerView<S>>,
    v: LayerView<S>,
    op: BoolOp,
)
    ensures
        fold_program(seq![v], op) == program(v),
        s.len() > 0 ==> fold_program(s.push(v), op) == (fold_program(s, op) + program(v)).push(
            StepView::Combine { op },
        ),
{
    assert(s.push(v).drop_last() =~= s);
}

/// A copy is like its original, moved by the offset; unless told otherwise by ten units each way.
pub proof fn law_copies_are_moved(v: LayerView<Fixed>, n: int, offset: Vec2<Fixed>)
    requires
        near_point(v.frame.pos),
        near(offset.x) && near(offset.y),
    ensures
        ({
            let c = copy_of(v, n, offset);
            &&& c.frame.pos.x.raw == v.frame.pos.x.raw + offset.x.raw
            &&& c.frame.pos.y.raw == v.frame.pos.y.raw + offset.y.raw
            &&& c.frame.size == v.frame.size && c.frame.rotation == v.frame.rotation
            &&& c.kind == v.kind && c.style == v.style && c.opacity == v.opacity && c.visible
                == v.visible && c.locked == v.locked && c.is_mask == v.is_mask
            &&& c.children.len() == v.children.len()
        }),
        spec_default_duplicate_offset::<Fixed>().x.raw == 10 * 65536,
        spec_default_duplicate_offset::<Fixed>().y.raw == 10 * 65536,
{
    lemma_as_many(v.children, n + 1);
    assert(Fixed::spec_ratio(10, 1).raw == 10 * 65536);
}

proof fn lemma_as_many<S>(s: Seq<LayerView<S>>, n: int)
    ensures
        crate::model::renumbered_all(s, n).len() == s.len(),
    decreases s.len(),
{
    if s.len() > 0 {
        lemma_as_many(s.drop_last(), n);
    }
}

/// Strokes and corners that are scaled along are as many times wider as the factor says; nothing else of
/// a style is.
pub proof fn law_scaled_styles(style: StyleView<Fixed>, r: CornerRadii<Fixed>, s: StrokeView<Fixed>)
    requires
        style.stroke == Some(s),
        0 <= s.width.raw <= 0x1000_0000,
        near(r.top_left) && near(r.top_right) && near(r.bottom_right) && near(r.bottom_left),
        -0x1000_0000 <= r.top_left.raw <= 0x1000_0000,
    ensures
        scaled_style(style, Some(s.width), Fixed::spec_ratio(1, 1)) == style,
        ({
            let t = scaled_style(style, Some(s.width), Fixed::spec_ratio(2, 1));
            &&& t.stroke matches Some(u) && u.width.raw == 2 * s.width.raw && u.paint == s.paint
            &&& t == (StyleView { stroke: t.stroke, ..style })
        }),
        scaled_radii(r, Fixed::spec_ratio(1, 1)) == r,
        scaled_radii(r, Fixed::spec_ratio(2, 1)).top_left.raw == 2 * r.top_left.raw,
        scaled_corners(
            (KindView::Rectangle { corner_radius: r }),
            (KindView::Rectangle { corner_radius: r }),
            Fixed::spec_ratio(1, 1),
        ) == (KindView::<Fixed>::Rectangle { corner_radius: r }),
{
    assert(Fixed::spec_ratio(1, 1) == Fixed { raw: 65536 });
    assert(Fixed::spec_ratio(2, 1) == Fixed { raw: 131072 });
    assert(Fixed::spec_ratio(0, 1).raw == 0);
    lemma_times_one(s.width);
    lemma_times_one(r.top_left);
    lemma_times_one(r.top_right);
    lemma_times_one(r.bottom_right);
    lemma_times_one(r.bottom_left);
    assert((s.width.raw * 131072) / 65536 == 2 * s.width.raw);
    assert((r.top_left.raw * 131072) / 65536 == 2 * r.top_left.raw);
    let one = scaled_style(style, Some(s.width), Fixed::spec_ratio(1, 1));
    assert(one.stroke->0 =~= s);
    assert(one =~= style);
}

/// A layer that holds nothing is shown in its own frame; one that holds one such layer where that layer
/// is drawn, inside of it.
pub proof fn law_containers_are_shown_around_what_they_hold<S: Scalar>(v: LayerView<S>)
    ensures
        v.children.len() == 0 ==> shown_bounds(v) == v.frame.spec_bounds(),
        v.children.len() == 1 && v.children[0].children.len() == 0 ==> shown_bounds(v)
            == tight_bounds(v.children[0]).spec_translate(v.frame.pos.spec_to_vec2()),
{
    if v.children.len() == 1 {
        let s = v.children;
        assert(s.last() == s[0]);
        assert(s.drop_last().len() == 0);
        assert(crate::transform::local_box_all(s.drop_last()) is None);
        if s[0].children.len() == 0 {
            assert(crate::transform::local_box_all(s[0].children) is None);
            assert(crate::transform::local_box(s[0]) is None);
            assert(crate::transform::local_box_all(s) == Some(tight_bounds(s[0])));
        }
    }
}

/// A rectangle with sharp corners is drawn as a box; where all are round it is drawn clockwise, from where
/// the first corner ends along each side to where the next begins and round it.
pub proof fn law_rounded_boxes_go_round(b: Rect<Fixed>, radii: CornerRadii<Fixed>)
    requires
        -0x2000_0000 <= b.min.x.raw <= b.max.x.raw <= 0x2000_0000,
        -0x2000_0000 <= b.min.y.raw <= b.max.y.raw <= 0x2000_0000,
        b.max.x.raw - b.min.x.raw <= 0x1000_0000,
        b.max.y.raw - b.min.y.raw <= 0x1000_0000,
    ensures
        radii.top_left.raw < 32768 && radii.top_right.raw < 32768 && radii.bottom_right.raw < 32768
            && radii.bottom_left.raw < 32768 ==> rounded_outline(b, radii) == OutlineView::Rect(b),
        ({
            let tl = fitted_radius(radii.top_left, b);
            let tr = fitted_radius(radii.top_right, b);
            let br = fitted_radius(radii.bottom_right, b);
            let bl = fitted_radius(radii.bottom_left, b);
            tl.raw >= 32768 && tr.raw >= 32768 && br.raw >= 32768 && bl.raw >= 32768 ==> (
            rounded_outline(b, radii) matches OutlineView::Steps(s) && s.len() == 10 && s[0]
                == PathStep::MoveTo(Pos2 { x: b.min.x.spec_plus(tl), y: b.min.y }) && s[1]
                == PathStep::LineTo(Pos2 { x: b.max.x.spec_minus(tr), y: b.min.y }) && s[2] == (
            PathStep::QuadTo {
                control: Pos2 { x: b.max.x, y: b.min.y },
                to: Pos2 { x: b.max.x, y: b.min.y.spec_plus(tr) },
            }) && s[3] == PathStep::LineTo(Pos2 { x: b.max.x, y: b.max.y.spec_minus(br) }) && s[4]
                == (PathStep::QuadTo {
                control: b.max,
                to: Pos2 { x: b.max.x.spec_minus(br), y: b.max.y },
            }) && s[5] == PathStep::LineTo(Pos2 { x: b.min.x.spec_plus(bl), y: b.max.y }) && s[6]
                == (PathStep::QuadTo {
                control: Pos2 { x: b.min.x, y: b.max.y },
                to: Pos2 { x: b.min.x, y: b.max.y.spec_minus(bl) },
            }) && s[7] == PathStep::LineTo(Pos2 { x: b.min.x, y: b.min.y.spec_plus(tl) }) && s[8]
                == (PathStep::QuadTo {
                control: b.min,
                to: Pos2 { x: b.min.x.spec_plus(tl), y: b.min.y },
            }) && s[9] == PathStep::<Fixed>::Close)
        }),
{
    assert(Fixed::spec_ratio(1, 2).raw == 32768);
    assert(Fixed::spec_ratio(0, 1).raw == 0);
}

/// An edit of a selection reaches each of the layers that are named, once, and changes them as it changes
/// one.
pub proof fn law_edits_reach_the_named_layers<S: Scalar>(
    s: Seq<LayerView<S>>,
    ids: Seq<LayerId>,
    edit: EditView<S>,
    i: int,
)
    requires
        0 <= i < ids.len(),
        ids.no_duplicates(),
    ensures
        find(s, ids[i]) matches Some(v) ==> (find(
            edited_each(s, ids, edit),
            ids[i],
        ) matches Some(w) && w == edited(v, edit).with_children(w.children)),
    decreases ids.len(),
{
    let t = ids.drop_last();
    let last = ids.last();
    let u = edited_each(s, t, edit);
    lemma_edited_one(u, last, edit, ids[i]);
    if i < t.len() {
        assert(t[i] == ids[i]);
        assert(t.no_duplicates());
        assert(ids[i] != ids[ids.len() - 1]);
        law_edits_reach_the_named_layers(s, t, edit, i);
    } else {
        assert forall|j: int| 0 <= j < t.len() implies t[j] != last by {
            assert(ids[j] != ids[ids.len() - 1]);
        }
        lemma_unnamed(s, t, edit, last);
    }
    lemma_edit_is_shallow(edit);
}

/// An edit changes no layer that is not named, apart from what it holds.
pub proof fn lemma_unnamed<S: Scalar>(
    s: Seq<LayerView<S>>,
    ids: Seq<LayerId>,
    edit: EditView<S>,
    other: LayerId,
)
    requires
        forall|j: int| 0 <= j < ids.len() ==> #[trigger] ids[j] != other,
    ensures
        find(edited_each(s, ids, edit), other) is Some <==> find(s, other) is Some,
        find(s, other) matches Some(v) ==> (find(
            edited_each(s, ids, edit),
            other,
        ) matches Some(w) && w == v.with_children(w.children)),
    decreases ids.len(),
{
    if ids.len() > 0 {
        let t = ids.drop_last();
        assert forall|j: int| 0 <= j < t.len() implies #[trigger] t[j] != other by {
            assert(ids[j] != other);
        }
        lemma_unnamed(s, t, edit, other);
        assert(ids[ids.len() - 1] != other);
        lemma_edited_one(edited_each(s, t, edit), ids.last(), edit, other);
    }
}

proof fn lemma_edit_is_shallow<S: Scalar>(edit: EditView<S>)
    ensures
        forall|v: LayerView<S>, c: Seq<LayerView<S>>| #[trigger]
            edited(v.with_children(c), edit) == edited(v, edit).with_children(c),
{
    assert forall|v: LayerView<S>, c: Seq<LayerView<S>>| #[trigger]
        edited(v.with_children(c), edit) == edited(v, edit).with_children(c) by {
        match edit {
            EditView::Move(_) => {},
            EditView::Resize(_) => {},
            _ => {},
        }
    }
}

proof fn lemma_edited_one<S: Scalar>(
    s: Seq<LayerView<S>>,
    id: LayerId,
    edit: EditView<S>,
    other: LayerId,
)
    ensures
        find(edited_one(s, id, edit), other) is Some <==> find(s, other) is Some,
        find(s, other) matches Some(v) ==> (find(edited_one(s, id, edit), other) matches Some(w)
            && if other == id {
            w == edited(v, edit)
        } else {
            w == v.with_children(w.children)
        }),
{
    let f = |v: LayerView<S>| edited(v, edit);
    lemma_edit_is_shallow(edit);
    assert(is_shallow(f)) by {
        assert forall|v: LayerView<S>, c: Seq<LayerView<S>>| #[trigger]
            f(v.with_children(c)) == f(v).with_children(c) by {}
    }
    assert(edited_one(s, id, edit) == crate::dragging::with_layer(s, id, f));
    lemma_changed_layer(s, id, f, other);
}

/// How the text of a layer is set: as the text says, in the box that it is drawn in; a layer that is no
/// text, has none or has no fill is not set at all.
pub proof fn law_texts_are_set_as_they_say<S: Scalar>(v: LayerView<S>, b: Rect<S>, o: S)
    ensures
        !(v.kind is Text) ==> text_setting(v, b, o) is None,
        v.style.fill is None ==> text_setting(v, b, o) is None,
        v.kind matches KindView::Text { text } ==> {
            &&& text.content.len() == 0 ==> text_setting(v, b, o) is None
            &&& text.content.len() > 0 && v.style.fill is Some ==> (text_setting(
                v,
                b,
                o,
            ) matches Some((setting, looks)) && setting.bounds == b && setting.align == text.align
                && setting.vertical_align == text.vertical_align && setting.resize == text.resize
                && setting.line_height == text.line_height && setting.letter_spacing
                == text.letter_spacing && setting.paragraph_spacing == text.paragraph_spacing
                && setting.uniform == (text.runs.len() == 0) && setting.opacity == o.spec_times(
                v.style.fill_opacity,
            ) && looks.len() == text.runs.len() + 1 && looks[0].font_size == text.font_size
                && looks[0].bold == text.bold && looks[0].italic == text.italic
                && looks[0].underline == text.underline && looks[0].strikethrough
                == text.strikethrough && forall|i: int|
                0 <= i < text.runs.len() ==> ({
                    let look = #[trigger] looks[i + 1];
                    let style = text.runs[i].style;
                    look.font_size == style.font_size && look.color == style.color && look.bold
                        == style.bold && look.italic == style.italic && look.underline
                        == style.underline && look.strikethrough == style.strikethrough
                }))
        },
{
}

/// Each font has its own face, and its own bold one; a family of the system that has no bold face keeps
/// its plain one.
pub proof fn law_fonts_have_their_faces(installed: Option<u32>, name: Seq<char>, n: u32)
    ensures
        regular_face(TextFontView::Proportional, installed).0 == FontFile::Proportional,
        regular_face(TextFontView::Monospace, installed).0 == FontFile::Monospace,
        regular_face(TextFontView::Serif, installed).0 == FontFile::Serif,
        regular_face(TextFontView::Display, installed).0 == FontFile::Display,
        regular_face(TextFontView::Handwriting, installed).0 == FontFile::Handwriting,
        regular_face(TextFontView::System(name), Some(n)) == (FontFile::Installed, n),
        bold_face(TextFontView::Proportional, installed, None).0 == FontFile::ProportionalBold,
        bold_face(TextFontView::Monospace, installed, None).0 == FontFile::MonospaceBold,
        bold_face(TextFontView::Serif, installed, None).0 == FontFile::SerifBold,
        bold_face(TextFontView::Display, installed, None).0 == FontFile::DisplayBold,
        bold_face(TextFontView::Handwriting, installed, None).0 == FontFile::HandwritingBold,
        bold_face(TextFontView::System(name), installed, Some(n)) == (FontFile::InstalledBold, n),
        bold_face(TextFontView::System(name), installed, None) == regular_face(
            TextFontView::System(name),
            installed,
        ),
{
}

/// A glyph is the character of its row in the style of its run, on the baseline; it is cut off at the box
/// of a text of fixed size alone, and drawn twice only where all of a text is bold.
pub proof fn law_glyphs_are_the_characters_of_their_row<S: Scalar>(
    m: Seq<MetricsView<S>>,
    looks: Seq<Look<S>>,
    setting: Setting<S>,
    row: RowView<S>,
    y: S,
    k: nat,
)
    requires
        k < row.chars.len(),
        0 < m.len() <= usize::MAX,
    ensures
        glyph(m, looks, setting, row, y, k) matches TextInk::Glyph {
            c,
            style,
            baseline,
            clip,
            italic,
            doubled,
            ..
        } && c == row.chars[k as int].c && baseline == y && style == style_at(
            row.chars[k as int].run,
            m.len(),
        ) && italic == looks[style as int].italic && doubled == (setting.uniform
            && looks[style as int].bold) && (setting.resize == TextResize::Fixed ==> clip == Some(
            setting.bounds,
        )) && (setting.resize != TextResize::Fixed ==> clip is None),
{
}

/// An image that is painted has new bytes and a new version, and is as it was otherwise; one that is
/// cropped is as many pixels wide and high as are left.
pub proof fn law_painted_images<S: Scalar>(
    v: LayerView<S>,
    bytes: Seq<u8>,
    version: u64,
    b: (u32, u32, u32, u32),
)
    requires
        v.kind is Image,
        b.0 <= b.2 && b.1 <= b.3,
        b.2 < u32::MAX && b.3 < u32::MAX,
    ensures
        ({
            let w = repainted(v, bytes, version);
            &&& w.kind matches KindView::Image { encoded, version: n, color_adjust, width, height }
                && encoded == bytes && n == version && color_adjust == v.kind->color_adjust && width
                == v.kind->width && height == v.kind->height
            &&& w.frame == v.frame && w.id == v.id && w.style == v.style
        }),
        cropped(v, bytes, version, b).kind matches KindView::Image {
            encoded,
            version: n,
            width,
            height,
            ..
        } && encoded == bytes && n == version && width == b.2 - b.0 + 1 && height == b.3 - b.1 + 1,
        overlay_color(false) == (Color32 { r: 0, g: 0, b: 0, a: 0 }),
        overlay_color(true).a == 120,
{
}

/// Layers are aligned to the one that is picked for it, where it is among them.
pub proof fn law_the_picked_layer_is_aligned_to<S: Scalar>(s: Session<S>, id: LayerId, v: LayerView<S>)
    requires
        s.canvas.reference_layer == Some(id),
        s.selection.contains(id),
        find(s.history.layers(), id) == Some(v),
    ensures
        selection_target(s, false) == Some(v.frame.spec_rotated_bounds()),
        selection_target(s, true) == Some(v.frame.spec_rotated_bounds()),
{
}

/// Without a picked layer there is nothing to align to, unless an artboard is asked for.
pub proof fn law_nothing_is_aligned_to<S: Scalar>(s: Session<S>)
    requires
        s.canvas.reference_layer is None,
    ensures
        selection_target(s, false) is None,
{
}

/// A text that is turned into its outlines is where it was and looks as it did.
pub proof fn law_outlined_texts_stay<S>(v: LayerView<S>, polygons: Seq<PolygonView<S>>)
    ensures
        outlined(v, polygons).kind == (KindView::<S>::CompoundPath { polygons }),
        outlined(v, polygons).frame == v.frame,
        outlined(v, polygons).style == v.style,
        outlined(v, polygons).id == v.id,
        outlined(v, polygons).name == v.name,
{
}

} // verus!
