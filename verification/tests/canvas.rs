use sdesign::alignment::DistributeAxis;
use sdesign::boolean_ops::create_boolean_group;
use sdesign::canvas::CanvasWidget;
use sdesign::document::{Document, Page};
use sdesign::geometry::{Pos2, Rect, Vec2};
use sdesign::history::History;
use sdesign::hit_test::{collect_marquee_hits, layers_at_point};
use sdesign::model::{
    BoolOp, CornerRadii, Frame, IdSource, Layer, LayerId, LayerKind, PathPoint, PointType,
};
use sdesign::path_edit::flatten_path;
use sdesign::placement::{distribution_order, gap_handle_positions, insert_layer, new_artboard};
use sdesign::scalar::Scalar;
use sdesign::snapping::axis_gap;
use sdesign::transform::{
    apply_resize_delta, apply_rotation_delta, collect_resizable_leaves, collect_rotatable_leaves,
    display_bounds, refit_container_to_children, Handle, Rescale,
};

#[derive(Clone, Copy, Debug, PartialEq)]
struct R(f32);

impl Scalar for R {
    fn ratio(num: i32, den: i32) -> Self {
        R(num as f32 / den as f32)
    }
    fn of_count(n: u64) -> Self {
        R(n as f32)
    }
    fn of_int(n: i64) -> Self {
        R(n as f32)
    }
    fn plus(self, other: Self) -> Self {
        R(self.0 + other.0)
    }
    fn minus(self, other: Self) -> Self {
        R(self.0 - other.0)
    }
    fn times(self, other: Self) -> Self {
        R(self.0 * other.0)
    }
    fn over(self, other: Self) -> Self {
        R(self.0 / other.0)
    }
    fn negated(self) -> Self {
        R(-self.0)
    }
    fn magnitude(self) -> Self {
        R(self.0.abs())
    }
    fn lesser(self, other: Self) -> Self {
        R(self.0.min(other.0))
    }
    fn greater(self, other: Self) -> Self {
        R(self.0.max(other.0))
    }
    fn is_lt(self, other: Self) -> bool {
        self.0 < other.0
    }
    fn is_le(self, other: Self) -> bool {
        self.0 <= other.0
    }
    fn is_same(self, other: Self) -> bool {
        self.0 == other.0
    }
    fn rounded(self) -> Self {
        R(self.0.round())
    }
    fn floored(self) -> Self {
        R(self.0.floor())
    }
    fn ceiled(self) -> Self {
        R(self.0.ceil())
    }
    fn decade(self) -> Self {
        R(10f32.powf(self.0.log10().floor()))
    }
    fn root(self) -> Self {
        R(self.0.sqrt())
    }
    fn hypot(self, other: Self) -> Self {
        R(self.0.hypot(other.0))
    }
    fn sin_deg(self) -> Self {
        R(self.0.to_radians().sin())
    }
    fn cos_deg(self) -> Self {
        R(self.0.to_radians().cos())
    }
    fn atan2(self, x: Self) -> Self {
        R(self.0.atan2(x.0))
    }
    fn to_degrees(self) -> Self {
        R(self.0.to_degrees())
    }
    fn is_finite(self) -> bool {
        self.0.is_finite()
    }
    fn to_i64(self) -> i64 {
        self.0 as i64
    }
}

fn p(x: f32, y: f32) -> Pos2<R> {
    Pos2::new(R(x), R(y))
}

fn v(x: f32, y: f32) -> Vec2<R> {
    Vec2::new(R(x), R(y))
}

fn frame(x: f32, y: f32, w: f32, h: f32) -> Frame<R> {
    Frame { pos: p(x, y), size: v(w, h), rotation: R(0.0) }
}

fn rect_layer(id: LayerId, name: &str, x: f32, y: f32, w: f32, h: f32) -> Layer<R> {
    Layer::new(
        id,
        name,
        frame(x, y, w, h),
        LayerKind::Rectangle { corner_radius: CornerRadii::uniform(R(0.0)) },
    )
}

fn oval(id: LayerId, name: &str, x: f32, y: f32, w: f32, h: f32) -> Layer<R> {
    Layer::new(id, name, frame(x, y, w, h), LayerKind::Oval)
}

fn straight_point(x: f32, y: f32) -> PathPoint<R> {
    PathPoint {
        anchor: p(x, y),
        handle_in: None,
        handle_out: None,
        point_type: PointType::Disconnected,
        corner_radius: R(0.0),
    }
}

fn rounded_point(x: f32, y: f32, radius: f32) -> PathPoint<R> {
    PathPoint { point_type: PointType::Straight, corner_radius: R(radius), ..straight_point(x, y) }
}

fn apart(a: Pos2<R>, b: Pos2<R>) -> f32 {
    a.from(b).length().0
}

#[test]
fn flatten_path_rounds_a_corner_with_radius() {
    let square = vec![
        straight_point(0.0, 0.0),
        rounded_point(40.0, 0.0, 8.0),
        straight_point(40.0, 40.0),
        straight_point(0.0, 40.0),
    ];
    let flat = flatten_path(&square, true);
    assert!(flat.len() > 4, "expected extra arc points, got {}", flat.len());
    assert!(flat.iter().all(|q| apart(*q, p(40.0, 0.0)) > 0.01));
}

#[test]
fn flatten_path_clamps_radius_to_half_shorter_adjacent_segment() {
    let points =
        vec![straight_point(0.0, 0.0), rounded_point(40.0, 0.0, 1000.0), straight_point(40.0, 10.0)];
    let flat = flatten_path(&points, false);
    let target = p(40.0, 5.0);
    let closest = flat
        .iter()
        .min_by(|a, b| apart(**a, target).partial_cmp(&apart(**b, target)).unwrap())
        .unwrap();
    assert!(apart(*closest, target) < 0.1, "expected a point at {target:?}, got {closest:?}");
}

#[test]
fn flatten_path_zero_radius_is_unchanged() {
    let square = vec![
        straight_point(0.0, 0.0),
        straight_point(40.0, 0.0),
        straight_point(40.0, 40.0),
        straight_point(0.0, 40.0),
    ];
    assert_eq!(flatten_path(&square, true).len(), 4);
}

fn setup(
    points: Vec<PathPoint<R>>,
    closed: bool,
) -> (CanvasWidget<R>, History<R>, Vec<LayerId>, LayerId) {
    let layer = Layer::new(1, "Path", frame(0.0, 0.0, 40.0, 40.0), LayerKind::Path { points, closed });
    let mut doc = Document::new();
    doc.active_page_mut().layers.push(layer);
    (CanvasWidget::new(), History::new(doc), vec![1], 1)
}

fn small_square() -> Vec<PathPoint<R>> {
    vec![
        straight_point(0.0, 0.0),
        straight_point(20.0, 0.0),
        straight_point(20.0, 20.0),
        straight_point(0.0, 20.0),
    ]
}

fn big_square() -> Vec<PathPoint<R>> {
    vec![
        straight_point(0.0, 0.0),
        straight_point(40.0, 0.0),
        straight_point(40.0, 40.0),
        straight_point(0.0, 40.0),
    ]
}

fn path_of(history: &History<R>, id: LayerId) -> (&Vec<PathPoint<R>>, bool, Vec2<R>) {
    let layer = history.get().active_page().find(id).unwrap();
    let LayerKind::Path { points, closed } = &layer.kind else { panic!("expected Path") };
    (points, *closed, layer.frame.pos.to_vec2())
}

#[test]
fn double_click_on_straight_anchor_converts_to_curved() {
    let (widget, mut history, selection, id) = setup(small_square(), true);
    let converted =
        widget.try_convert_anchor_to_curve(&mut history, &selection, p(20.0, 0.0), Pos2::zero());
    assert!(converted, "clicking directly on a straight anchor should convert it");
    let (points, _, _) = path_of(&history, id);
    assert_eq!(points[1].point_type, PointType::Mirror);
    assert!(points[1].handle_in.is_some());
    assert!(points[1].handle_out.is_some());
    // Mirror semantics: handles are exact opposites.
    assert_eq!(points[1].handle_in, points[1].handle_out.map(|h| h.negated()));
}

#[test]
fn right_click_hit_test_finds_the_nearest_anchor_within_radius() {
    let (widget, history, selection, id) = setup(small_square(), true);
    let hit = widget.hit_test_path_anchor(&history, &selection, Pos2::zero(), p(20.0, 0.0));
    assert_eq!(hit, Some((id, 1)));
}

#[test]
fn right_click_hit_test_misses_a_click_far_from_every_anchor() {
    let (widget, history, selection, _id) = setup(small_square(), true);
    let hit = widget.hit_test_path_anchor(&history, &selection, Pos2::zero(), p(10.0, 0.0));
    assert_eq!(hit, None);
}

#[test]
fn double_click_on_segment_midpoint_does_not_convert_so_insert_still_applies() {
    let (widget, mut history, selection, id) = setup(small_square(), true);
    let midpoint = p(10.0, 0.0);
    let converted =
        widget.try_convert_anchor_to_curve(&mut history, &selection, midpoint, Pos2::zero());
    assert!(!converted, "a segment midpoint isn't an anchor, so it shouldn't convert");

    widget.try_insert_path_point(&mut history, &selection, midpoint, Pos2::zero());
    assert_eq!(path_of(&history, id).0.len(), 5, "insert should still add a point");
}

#[test]
fn double_click_on_already_curved_anchor_does_nothing() {
    let points = vec![
        straight_point(0.0, 0.0),
        PathPoint {
            handle_in: Some(v(-5.0, 0.0)),
            handle_out: Some(v(5.0, 0.0)),
            point_type: PointType::Mirror,
            ..straight_point(20.0, 0.0)
        },
        straight_point(20.0, 20.0),
    ];
    let (widget, mut history, selection, _id) = setup(points, false);
    let converted =
        widget.try_convert_anchor_to_curve(&mut history, &selection, p(20.0, 0.0), Pos2::zero());
    assert!(!converted, "an anchor that already has handles shouldn't be re-converted");
}

#[test]
fn rotate_drag_sets_frame_rotation_and_preserves_pivot_distance() {
    let mut doc = Document::new();
    doc.active_page_mut().layers.push(rect_layer(1, "Rect", 0.0, 0.0, 20.0, 10.0));
    let mut leaves = Vec::new();
    collect_rotatable_leaves(doc.active_page().find(1).unwrap(), Vec2::zero(), &mut leaves);
    let pivot = leaves[0].abs_bounds.center();
    let pivot_dist_before = apart(leaves[0].abs_bounds.center(), pivot);

    apply_rotation_delta(doc.active_page_mut(), pivot, R(90.0), &leaves);

    let rotated = doc.active_page().find(1).unwrap();
    assert_eq!(rotated.frame.rotation, R(90.0));
    assert_eq!(rotated.frame.size, v(20.0, 10.0), "only the orientation changes");
    let pivot_dist_after = apart(rotated.frame.bounds().center(), pivot);
    assert!((pivot_dist_after - pivot_dist_before).abs() < 1e-3);
}

#[test]
fn rotating_a_group_bakes_rotation_into_children_not_the_group() {
    let group = Layer::new(
        3,
        "Group",
        frame(0.0, 0.0, 30.0, 10.0),
        LayerKind::Group {
            children: vec![
                rect_layer(1, "A", 0.0, 0.0, 10.0, 10.0),
                rect_layer(2, "B", 20.0, 0.0, 10.0, 10.0),
            ],
        },
    );
    let mut leaves = Vec::new();
    collect_rotatable_leaves(&group, Vec2::zero(), &mut leaves);
    // Both children collected as leaves, not the group itself.
    assert_eq!(leaves.len(), 2);
    assert!(leaves.iter().all(|l| l.id != 3));

    let mut doc = Document::new();
    doc.active_page_mut().layers.push(group);
    apply_rotation_delta(doc.active_page_mut(), p(15.0, 5.0), R(90.0), &leaves);

    let page = doc.active_page();
    assert_eq!(page.find(3).unwrap().frame.rotation, R(0.0), "the group's own never changes");
    assert_eq!(page.find(1).unwrap().frame.rotation, R(90.0), "baked into each child instead");
    assert_eq!(page.find(2).unwrap().frame.rotation, R(90.0));
}

fn union_of_circles() -> Layer<R> {
    Layer::new(
        3,
        "Union",
        frame(0.0, 0.0, 30.0, 10.0),
        LayerKind::BooleanGroup {
            children: vec![oval(1, "A", 0.0, 0.0, 10.0, 10.0), oval(2, "B", 20.0, 0.0, 10.0, 10.0)],
        },
    )
}

fn absolute(page: &Page<R>, id: LayerId) -> Pos2<R> {
    page.find(id).unwrap().frame.pos.plus(page.absolute_offset(id).unwrap())
}

#[test]
fn refit_after_rotating_a_boolean_group_keeps_its_frame_in_sync_with_children() {
    let group = union_of_circles();
    let mut leaves = Vec::new();
    collect_rotatable_leaves(&group, Vec2::zero(), &mut leaves);
    assert_eq!(leaves.len(), 2, "children are the rotatable leaves, not the BooleanGroup itself");

    let mut doc = Document::new();
    doc.active_page_mut().layers.push(group);
    apply_rotation_delta(doc.active_page_mut(), p(15.0, 5.0), R(90.0), &leaves);

    // Before the refit pass: the container's own frame is untouched.
    let stale = doc.active_page().find(3).unwrap();
    assert_eq!(stale.frame.pos, p(0.0, 0.0));
    assert_eq!(stale.frame.size, v(30.0, 10.0));
    let stale_pos = stale.frame.pos;
    let LayerKind::BooleanGroup { children: stale_children } = &stale.kind else { unreachable!() };
    let expected_local_bbox =
        stale_children.iter().map(|c| c.frame.rotated_bounds()).reduce(|a, b| a.union(b)).unwrap();

    let abs_before = [absolute(doc.active_page(), 1), absolute(doc.active_page(), 2)];

    refit_container_to_children(doc.active_page_mut(), 3);

    let refit = doc.active_page().find(3).unwrap();
    assert_eq!(refit.frame.rotation, R(0.0), "the container's own rotation stays 0");
    assert_eq!(refit.frame.size, expected_local_bbox.size());
    assert_eq!(refit.frame.pos, stale_pos.plus(expected_local_bbox.min.to_vec2()));

    let abs_after = [absolute(doc.active_page(), 1), absolute(doc.active_page(), 2)];
    for (before, after) in abs_before.iter().zip(abs_after.iter()) {
        assert!(
            apart(*before, *after) < 1e-3,
            "refitting must not move any child's absolute position: {before:?} vs {after:?}"
        );
    }
}

fn scaled_from_origin(factor: f32) -> Rescale<R> {
    Rescale { old_anchor: p(0.0, 0.0), new_anchor: p(0.0, 0.0), scale: v(factor, factor) }
}

#[test]
fn refit_after_resizing_a_boolean_group_keeps_its_frame_in_sync_with_children() {
    let group = union_of_circles();
    let mut layers = Vec::new();
    collect_resizable_leaves(&group, Vec2::zero(), &mut layers);
    assert_eq!(layers.len(), 2, "children are the resizable leaves, not the BooleanGroup itself");

    let mut doc = Document::new();
    doc.active_page_mut().layers.push(group);
    apply_resize_delta(doc.active_page_mut(), &layers, scaled_from_origin(2.0), None);

    let stale = doc.active_page().find(3).unwrap();
    assert_eq!(stale.frame.pos, p(0.0, 0.0));
    assert_eq!(stale.frame.size, v(30.0, 10.0));

    refit_container_to_children(doc.active_page_mut(), 3);

    let page = doc.active_page();
    let refit = page.find(3).unwrap();
    assert_eq!(refit.frame.rotation, R(0.0));
    assert_eq!(refit.frame.pos, p(0.0, 0.0));
    assert_eq!(refit.frame.size, v(60.0, 20.0));

    assert_eq!(absolute(page, 1), p(0.0, 0.0));
    assert_eq!(absolute(page, 2), p(40.0, 0.0));
    assert_eq!(page.find(1).unwrap().frame.size, v(20.0, 20.0));
    assert_eq!(page.find(2).unwrap().frame.size, v(20.0, 20.0));
}

#[test]
fn resizing_a_boolean_group_across_multiple_drag_frames_does_not_drift() {
    let group = union_of_circles();
    let mut layers = Vec::new();
    collect_resizable_leaves(&group, Vec2::zero(), &mut layers);
    let mut doc = Document::new();
    doc.active_page_mut().layers.push(group);

    // Several drag frames with the layers captured once at drag start.
    for factor in [1.2, 1.5, 1.8, 2.0] {
        apply_resize_delta(doc.active_page_mut(), &layers, scaled_from_origin(factor), None);
    }

    let stale = doc.active_page().find(3).unwrap();
    assert_eq!(stale.frame.pos, p(0.0, 0.0));
    assert_eq!(stale.frame.size, v(30.0, 10.0));

    let page = doc.active_page();
    assert_eq!(absolute(page, 1), p(0.0, 0.0));
    assert_eq!(absolute(page, 2), p(40.0, 0.0));
    assert_eq!(page.find(1).unwrap().frame.size, v(20.0, 20.0));
    assert_eq!(page.find(2).unwrap().frame.size, v(20.0, 20.0));

    refit_container_to_children(doc.active_page_mut(), 3);
    let refit = doc.active_page().find(3).unwrap();
    assert_eq!(refit.frame.pos, p(0.0, 0.0));
    assert_eq!(refit.frame.size, v(60.0, 20.0));
}

#[test]
fn resizing_a_freshly_created_boolean_group_via_a_real_handle_drag_stays_tight() {
    let mut page = Page::new("Page 1");
    page.layers.push(oval(1, "A", 0.0, 0.0, 100.0, 100.0));
    page.layers.push(oval(2, "B", 60.0, 0.0, 100.0, 100.0));
    let mut source = IdSource::starting_at(3);
    let group_id = create_boolean_group(&mut page, &[1, 2], BoolOp::Union, &mut source)
        .expect("both operands are fillable ovals");

    let group_frame_at_creation = page.find(group_id).unwrap().frame;
    assert_eq!(group_frame_at_creation.pos, p(0.0, 0.0));
    assert_eq!(group_frame_at_creation.size, v(160.0, 100.0));

    let mut layers = Vec::new();
    collect_resizable_leaves(page.find(group_id).unwrap(), Vec2::zero(), &mut layers);
    let start_overall_bounds =
        layers.iter().map(|l| l.abs_bounds).reduce(|a, b| a.union(b)).unwrap();
    assert_eq!(start_overall_bounds, group_frame_at_creation.bounds());

    // One drag frame: drag BottomRight out to (400, 300).
    let new_overall = Handle::BottomRight.resize(start_overall_bounds, p(400.0, 300.0));
    let old = start_overall_bounds;
    let scale = Vec2::new(
        new_overall.width().over(old.width()),
        new_overall.height().over(old.height()),
    );
    let map = Rescale { old_anchor: old.min, new_anchor: new_overall.min, scale };
    apply_resize_delta(&mut page, &layers, map, None);

    let group_pos_before_refit = page.find(group_id).unwrap().frame.pos;
    let expected_local_bbox = page
        .find(1)
        .unwrap()
        .frame
        .rotated_bounds()
        .union(page.find(2).unwrap().frame.rotated_bounds());

    refit_container_to_children(&mut page, group_id);

    let refit = page.find(group_id).unwrap();
    assert_eq!(refit.frame.pos, group_pos_before_refit.plus(expected_local_bbox.min.to_vec2()));
    assert_eq!(refit.frame.size, expected_local_bbox.size());
}

#[test]
fn display_bounds_of_a_boolean_group_tracks_children_without_a_refit() {
    let group = union_of_circles();
    assert_eq!(display_bounds(&group), group.frame.bounds());

    let mut resized = group.duplicate();
    let LayerKind::BooleanGroup { children } = &mut resized.kind else { unreachable!() };
    children[1].frame.pos = p(60.0, 0.0);
    children[1].frame.size = v(20.0, 20.0);

    assert_eq!(
        resized.frame.bounds(),
        Rect::from_min_size(p(0.0, 0.0), v(30.0, 10.0))
    );
    assert_eq!(
        display_bounds(&resized),
        Rect::from_min_size(p(0.0, 0.0), v(80.0, 20.0))
    );
}

#[test]
fn rotating_a_boolean_group_of_circles_at_45_degrees_stays_tight_not_inflated() {
    let group = Layer::new(
        3,
        "Union",
        frame(0.0, 0.0, 200.0, 100.0),
        LayerKind::BooleanGroup {
            children: vec![
                oval(1, "A", 0.0, 0.0, 100.0, 100.0),
                oval(2, "B", 100.0, 0.0, 100.0, 100.0),
            ],
        },
    );
    let mut leaves = Vec::new();
    collect_rotatable_leaves(&group, Vec2::zero(), &mut leaves);

    let mut doc = Document::new();
    doc.active_page_mut().layers.push(group);
    let pivot = p(100.0, 50.0);
    apply_rotation_delta(doc.active_page_mut(), pivot, R(45.0), &leaves);
    refit_container_to_children(doc.active_page_mut(), 3);

    // Each circle's own box is unaffected by rotation; its center orbits the pivot.
    let rotate = |q: Pos2<R>| q.rotated(pivot, R(45.0));
    let expected_a = Rect::from_center_size(rotate(p(50.0, 50.0)), v(100.0, 100.0));
    let expected_b = Rect::from_center_size(rotate(p(150.0, 50.0)), v(100.0, 100.0));
    let expected = expected_a.union(expected_b);

    let actual = doc.active_page().find(3).unwrap().frame.bounds();
    assert!(
        apart(actual.min, expected.min) < 1e-2 && apart(actual.max, expected.max) < 1e-2,
        "box must stay tight around the rotated circles: expected {expected:?}, got {actual:?}"
    );

    let inflated_a = doc.active_page().find(1).unwrap().frame.rotated_bounds();
    assert!(
        inflated_a.width().0 > expected_a.width().0 + 1.0,
        "the box of the rotated square should be looser than the circle's"
    );
}

#[test]
fn cutting_closed_path_at_an_anchor_opens_it_with_a_duplicated_endpoint() {
    let (widget, mut history, mut selection, id) = setup(big_square(), true);
    let mut source = IdSource::starting_at(2);
    widget.try_scissor_path(&mut history, &mut selection, p(0.0, 0.0), Pos2::zero(), &mut source);

    let (points, closed, pos) = path_of(&history, id);
    assert!(!closed);
    assert_eq!(points.len(), 5);
    assert_eq!(selection, vec![id]);
    assert_eq!(points[0].anchor.plus(pos), points[4].anchor.plus(pos));
}

#[test]
fn cutting_closed_path_at_a_segment_opens_it_with_an_inserted_point() {
    let (widget, mut history, mut selection, id) = setup(big_square(), true);
    let mut source = IdSource::starting_at(2);
    widget.try_scissor_path(&mut history, &mut selection, p(20.0, 0.0), Pos2::zero(), &mut source);

    let (points, closed, pos) = path_of(&history, id);
    assert!(!closed);
    assert_eq!(points.len(), 6);
    let first_abs = points[0].anchor.plus(pos);
    let last_abs = points[points.len() - 1].anchor.plus(pos);
    assert_eq!(first_abs, last_abs);
    assert!(apart(first_abs, p(20.0, 0.0)) < 0.01);
}

#[test]
fn cutting_open_path_at_an_interior_anchor_splits_it_into_two_layers() {
    let points = vec![
        straight_point(0.0, 0.0),
        straight_point(20.0, 0.0),
        straight_point(40.0, 0.0),
        straight_point(60.0, 0.0),
    ];
    let (widget, mut history, mut selection, original_id) = setup(points, false);
    let mut source = IdSource::starting_at(2);
    widget.try_scissor_path(&mut history, &mut selection, p(40.0, 0.0), Pos2::zero(), &mut source);

    assert_eq!(selection.len(), 2);
    assert!(!selection.contains(&original_id));
    let page = history.get().active_page();
    assert!(page.find(original_id).is_none());
    assert_eq!(page.layers.len(), 2);

    let (pa, ca, _) = path_of(&history, selection[0]);
    let (pb, cb, _) = path_of(&history, selection[1]);
    assert!(!ca && !cb);
    assert_eq!(pa.len(), 3);
    assert_eq!(pb.len(), 2);
}

#[test]
fn cutting_open_path_at_an_interior_segment_splits_it_and_inserts_the_cut_point() {
    let points = vec![straight_point(0.0, 0.0), straight_point(40.0, 0.0)];
    let (widget, mut history, mut selection, original_id) = setup(points, false);
    let mut source = IdSource::starting_at(2);
    widget.try_scissor_path(&mut history, &mut selection, p(20.0, 0.0), Pos2::zero(), &mut source);

    assert_eq!(selection.len(), 2);
    assert!(history.get().active_page().find(original_id).is_none());
    let (pa, _, pos) = path_of(&history, selection[0]);
    let (pb, _, _) = path_of(&history, selection[1]);
    assert_eq!(pa.len(), 2);
    assert_eq!(pb.len(), 2);
    assert!(apart(pa[1].anchor.plus(pos), p(20.0, 0.0)) < 0.01);
}

#[test]
fn cutting_open_path_at_its_endpoint_is_a_noop() {
    let points = vec![straight_point(0.0, 0.0), straight_point(20.0, 0.0), straight_point(40.0, 0.0)];
    let (widget, mut history, mut selection, id) = setup(points, false);
    let mut source = IdSource::starting_at(2);
    widget.try_scissor_path(&mut history, &mut selection, p(0.0, 0.0), Pos2::zero(), &mut source);

    assert_eq!(selection, vec![id]);
    assert!(!history.can_undo());
    assert_eq!(path_of(&history, id).0.len(), 3);
}

#[test]
fn deleting_selected_points_removes_exactly_those_and_renormalizes_frame() {
    let points = vec![
        straight_point(0.0, 0.0),
        straight_point(20.0, 0.0),
        straight_point(40.0, 0.0),
        straight_point(40.0, 40.0),
        straight_point(0.0, 40.0),
    ];
    let (mut widget, mut history, mut selection, id) = setup(points, true);
    widget.point_edit_layer = Some(id);
    widget.selected_points = vec![1, 3];

    widget.delete_selected_points(&mut history, &mut selection);

    assert!(widget.selected_points.is_empty());
    let (points, _, pos) = path_of(&history, id);
    assert_eq!(points.len(), 3);
    let abs: Vec<Pos2<R>> = points.iter().map(|q| q.anchor.plus(pos)).collect();
    assert_eq!(abs, vec![p(0.0, 0.0), p(40.0, 0.0), p(0.0, 40.0)]);
}

#[test]
fn deleting_selected_points_below_two_remaining_deletes_the_whole_layer() {
    let points = vec![straight_point(0.0, 0.0), straight_point(20.0, 0.0), straight_point(40.0, 0.0)];
    let (mut widget, mut history, mut selection, id) = setup(points, false);
    widget.point_edit_layer = Some(id);
    widget.selected_points = vec![0, 1];

    widget.delete_selected_points(&mut history, &mut selection);

    assert!(history.can_undo());
    assert!(history.get().active_page().find(id).is_none());
    assert!(selection.is_empty());
    assert!(widget.selected_points.is_empty());
    assert!(widget.point_edit_layer.is_none());
}

#[test]
fn deleting_a_pen_drawn_lines_only_anchor_selection_deletes_the_line() {
    let points = vec![straight_point(0.0, 0.0), straight_point(20.0, 0.0)];
    let (mut widget, mut history, mut selection, id) = setup(points, false);
    widget.point_edit_layer = Some(id);
    widget.selected_points = vec![0];

    widget.delete_selected_points(&mut history, &mut selection);

    assert!(history.get().active_page().find(id).is_none());
    assert!(selection.is_empty());
}

#[test]
fn switching_selected_points_to_mirror_mirrors_the_existing_handle() {
    let mut point = straight_point(20.0, 20.0);
    point.handle_out = Some(v(10.0, 0.0));
    point.point_type = PointType::Disconnected;
    let (mut widget, mut history, _selection, id) =
        setup(vec![point, straight_point(40.0, 40.0)], false);
    widget.point_edit_layer = Some(id);
    widget.selected_points = vec![0];

    widget.apply_point_type(&mut history, id, PointType::Mirror);

    let (points, _, _) = path_of(&history, id);
    assert_eq!(points[0].point_type, PointType::Mirror);
    assert_eq!(points[0].handle_out, Some(v(10.0, 0.0)));
    assert_eq!(points[0].handle_in, Some(v(-10.0, 0.0)));
}

#[test]
fn switching_a_handle_less_point_to_mirror_generates_a_default_curve() {
    let points = vec![straight_point(0.0, 0.0), straight_point(20.0, 0.0), straight_point(40.0, 0.0)];
    let (mut widget, mut history, _selection, id) = setup(points, false);
    widget.point_edit_layer = Some(id);
    widget.selected_points = vec![1];

    widget.apply_point_type(&mut history, id, PointType::Mirror);

    let (points, _, _) = path_of(&history, id);
    assert_eq!(points[1].point_type, PointType::Mirror);
    assert!(points[1].handle_out.is_some(), "Mirror must generate a visible curve");
    assert_eq!(points[1].handle_out, points[1].handle_in.map(|h| h.negated()));
}

#[test]
fn switching_selected_points_to_straight_clears_both_handles() {
    let mut point = straight_point(20.0, 20.0);
    point.handle_in = Some(v(-10.0, 0.0));
    point.handle_out = Some(v(10.0, 0.0));
    point.point_type = PointType::Mirror;
    let (mut widget, mut history, _selection, id) =
        setup(vec![point, straight_point(40.0, 40.0)], false);
    widget.point_edit_layer = Some(id);
    widget.selected_points = vec![0];

    widget.apply_point_type(&mut history, id, PointType::Straight);

    let (points, _, _) = path_of(&history, id);
    assert_eq!(points[0].point_type, PointType::Straight);
    assert_eq!(points[0].handle_in, None);
    assert_eq!(points[0].handle_out, None);
}

/// An open path keeps its fill but is drawn hollow: the tessellator refuses to fill it.
#[test]
fn opening_a_filled_closed_path_with_scissors_does_not_panic_when_rendered() {
    let (widget, mut history, mut selection, id) = setup(big_square(), true);
    let mut source = IdSource::starting_at(2);
    let layer_before = history.get().active_page().find(id).unwrap();
    assert!(layer_before.style.fill.is_some(), "a Pen-drawn figure is filled by default");

    widget.try_scissor_path(&mut history, &mut selection, p(0.0, 0.0), Pos2::zero(), &mut source);

    let layer = history.get().active_page().find(id).unwrap();
    let LayerKind::Path { points, closed } = &layer.kind else { panic!("expected Path") };
    assert!(!closed, "scissoring a closed path should open it");
    assert!(layer.style.fill.is_some(), "cutting shouldn't itself clear the fill");

    let fill = layer.style.fill.as_ref().map_or(egui::Color32::TRANSPARENT, |f| {
        let c = f.to_color32();
        egui::Color32::from_rgba_premultiplied(c.r, c.g, c.b, c.a)
    });
    let shape = egui::epaint::PathShape {
        points: flatten_path(points, *closed).iter().map(|q| egui::pos2(q.x.0, q.y.0)).collect(),
        closed: *closed,
        fill: if *closed { fill } else { egui::Color32::TRANSPARENT },
        stroke: egui::Stroke::NONE.into(),
    };
    let mut tessellator = egui::epaint::Tessellator::new(
        1.0,
        egui::epaint::TessellationOptions::default(),
        [1, 1],
        Vec::new(),
    );
    let mut mesh = egui::epaint::Mesh::default();
    tessellator.tessellate_path(&shape, &mut mesh);
}

#[test]
fn cutting_a_pen_drawn_curved_path_at_every_anchor_and_segment_does_not_panic() {
    let curved_point = |x: f32, y: f32| PathPoint {
        handle_in: Some(v(-8.0, 3.0)),
        handle_out: Some(v(8.0, -3.0)),
        ..straight_point(x, y)
    };
    for closed in [false, true] {
        let base_points = vec![
            curved_point(0.0, 0.0),
            curved_point(30.0, -10.0),
            curved_point(60.0, 0.0),
            curved_point(60.0, 40.0),
            curved_point(30.0, 50.0),
            curved_point(0.0, 40.0),
        ];
        let n = base_points.len();
        let frame_pos = p(150.0, 200.0);
        let artboard_offset = v(500.0, 300.0);

        let make_history = || {
            let layer = Layer::new(
                1,
                "Path",
                Frame { pos: frame_pos, size: v(60.0, 50.0), rotation: R(0.0) },
                LayerKind::Path { points: base_points.clone(), closed },
            );
            let mut artboard = new_artboard(2, "Artboard", frame(500.0, 300.0, 800.0, 600.0));
            if let LayerKind::Artboard { children, .. } = &mut artboard.kind {
                children.push(layer);
            }
            let mut doc = Document::new();
            doc.active_page_mut().layers.push(artboard);
            History::new(doc)
        };
        let cut = |at: Pos2<R>| {
            let mut history = make_history();
            let mut selection = vec![1];
            let mut source = IdSource::starting_at(3);
            let widget = CanvasWidget::new();
            let at = at.plus(frame_pos.to_vec2()).plus(artboard_offset);
            widget.try_scissor_path(&mut history, &mut selection, at, Pos2::zero(), &mut source);
        };

        for point in &base_points {
            cut(point.anchor);
        }
        let last = if closed { n } else { n - 1 };
        for i in 0..last {
            let a = base_points[i].anchor;
            let b = base_points[(i + 1) % n].anchor;
            cut(p((a.x.0 + b.x.0) / 2.0, (a.y.0 + b.y.0) / 2.0));
        }
    }
}

fn sized(x: f32, y: f32, w: f32, h: f32) -> Rect<R> {
    Rect::from_min_size(p(x, y), v(w, h))
}

#[test]
fn collect_marquee_hits_default_is_top_level_intersecting() {
    let layers = vec![
        rect_layer(1, "A", 0.0, 0.0, 10.0, 10.0),
        rect_layer(2, "B", 100.0, 100.0, 10.0, 10.0),
    ];
    let mut hits = Vec::new();
    let marquee = sized(-5.0, -5.0, 20.0, 20.0);
    collect_marquee_hits(&layers, Vec2::zero(), marquee, false, false, &mut hits);
    assert_eq!(hits, vec![1]);
}

#[test]
fn collect_marquee_hits_contained_only_excludes_partial_overlap() {
    let layers = vec![rect_layer(1, "A", 0.0, 0.0, 10.0, 10.0)];
    let mut hits = Vec::new();
    let marquee = sized(-5.0, -5.0, 10.0, 10.0);
    collect_marquee_hits(&layers, Vec2::zero(), marquee, true, false, &mut hits);
    assert!(hits.is_empty(), "partially-overlapped layer should not match contained_only");

    let mut hits2 = Vec::new();
    let full_marquee = sized(-5.0, -5.0, 20.0, 20.0);
    collect_marquee_hits(&layers, Vec2::zero(), full_marquee, true, false, &mut hits2);
    assert_eq!(hits2, vec![1]);
}

#[test]
fn collect_marquee_hits_ignore_groups_descends_into_children_only() {
    let group = Layer::new(
        2,
        "Group",
        frame(0.0, 0.0, 10.0, 10.0),
        LayerKind::Group { children: vec![rect_layer(1, "Child", 2.0, 2.0, 4.0, 4.0)] },
    );
    let layers = vec![group];
    let marquee = sized(0.0, 0.0, 20.0, 20.0);

    let mut default_hits = Vec::new();
    collect_marquee_hits(&layers, Vec2::zero(), marquee, false, false, &mut default_hits);
    assert_eq!(default_hits, vec![2], "without ignore_groups, the group matches as one unit");

    let mut ignoring_hits = Vec::new();
    collect_marquee_hits(&layers, Vec2::zero(), marquee, false, true, &mut ignoring_hits);
    assert_eq!(ignoring_hits, vec![1], "with ignore_groups, only the leaf child matches");
}

#[test]
fn layers_at_point_returns_every_stacked_layer_front_to_back() {
    let layers = vec![
        rect_layer(1, "Bottom", 0.0, 0.0, 10.0, 10.0),
        rect_layer(2, "Top", 0.0, 0.0, 10.0, 10.0),
    ];
    let mut hits = Vec::new();
    layers_at_point(&layers, Vec2::zero(), p(5.0, 5.0), &mut hits);
    assert_eq!(hits, vec![2, 1]);
}

#[test]
fn insert_layer_with_hint_lands_inside_the_hinted_group_at_relative_coords() {
    let group = Layer::new(
        2,
        "Group",
        frame(50.0, 50.0, 20.0, 20.0),
        LayerKind::Group { children: vec![rect_layer(1, "Child", 1.0, 1.0, 2.0, 2.0)] },
    );
    let mut page = Page::new("Page 1");
    page.layers.push(group);

    // The place is outside the group: the hint still wins.
    let new_layer = rect_layer(3, "New", 55.0, 55.0, 5.0, 5.0);
    insert_layer(&mut page, new_layer, p(500.0, 500.0), Some(2));

    let LayerKind::Group { children } = &page.find(2).unwrap().kind else { unreachable!() };
    let inserted = children.iter().find(|l| l.id == 3).expect("should be inside the group");
    assert_eq!(inserted.frame.pos, p(5.0, 5.0));
}

#[test]
fn distribution_order_sorts_by_position_along_the_axis() {
    let mut page = Page::new("Page 1");
    page.layers.push(rect_layer(1, "C", 90.0, 0.0, 10.0, 10.0));
    page.layers.push(rect_layer(2, "A", 0.0, 0.0, 10.0, 10.0));
    page.layers.push(rect_layer(3, "B", 15.0, 0.0, 10.0, 10.0));
    let order = distribution_order(&page, &[1, 2, 3], DistributeAxis::Horizontal);
    let names: Vec<&str> =
        order.iter().map(|(id, _)| page.find(*id).unwrap().name.as_str()).collect();
    assert_eq!(names, vec!["A", "B", "C"]);
}

#[test]
fn gap_handle_positions_returns_one_fewer_than_item_count() {
    let mut page = Page::new("Page 1");
    page.layers.push(rect_layer(1, "A", 0.0, 0.0, 10.0, 10.0));
    page.layers.push(rect_layer(2, "B", 15.0, 0.0, 10.0, 10.0));
    page.layers.push(rect_layer(3, "C", 90.0, 0.0, 10.0, 10.0));
    let order = distribution_order(&page, &[1, 2, 3], DistributeAxis::Horizontal);
    let handles = gap_handle_positions(&order, DistributeAxis::Horizontal);
    assert_eq!(handles.len(), 2);
    // First gap midpoint between A's right edge (10) and B's left edge (15).
    assert_eq!(handles[0].x, R(12.5));
}

#[test]
fn axis_gap_none_when_intervals_overlap() {
    assert_eq!(axis_gap(R(0.0), R(10.0), R(5.0), R(15.0)), None);
}

#[test]
fn axis_gap_returns_the_facing_edges_when_disjoint() {
    assert_eq!(axis_gap(R(0.0), R(10.0), R(20.0), R(30.0)), Some((R(10.0), R(20.0))));
    assert_eq!(axis_gap(R(20.0), R(30.0), R(0.0), R(10.0)), Some((R(10.0), R(20.0))));
}

#[test]
fn only_the_last_change_of_a_drag_counts() {
    let once = {
        let group = union_of_circles();
        let mut layers = Vec::new();
        collect_resizable_leaves(&group, Vec2::zero(), &mut layers);
        let mut page = Page::new("Page 1");
        page.layers.push(group);
        apply_resize_delta(&mut page, &layers, scaled_from_origin(3.0), None);
        page
    };
    let group = union_of_circles();
    let mut layers = Vec::new();
    let mut turns = Vec::new();
    collect_resizable_leaves(&group, Vec2::zero(), &mut layers);
    collect_rotatable_leaves(&group, Vec2::zero(), &mut turns);
    let held = group.frame;
    let mut page = Page::new("Page 1");
    page.layers.push(group);
    apply_resize_delta(&mut page, &layers, scaled_from_origin(0.5), None);
    apply_resize_delta(&mut page, &layers, scaled_from_origin(3.0), None);
    assert_eq!(page, once);
    assert_eq!(page.find(3).unwrap().frame, held);
    let pivot = p(15.0, 5.0);
    apply_rotation_delta(&mut page, pivot, R(30.0), &turns);
    apply_rotation_delta(&mut page, pivot, R(90.0), &turns);
    let mut straight = once;
    apply_rotation_delta(&mut straight, pivot, R(90.0), &turns);
    assert_eq!(page, straight);
}
