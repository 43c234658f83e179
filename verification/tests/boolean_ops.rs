use geo::{BooleanOps, Contains, Coord, LineString, MultiPolygon, Point, Polygon};
use sdesign::boolean_ops::{
    apply_boolean_op, boolean_op_program, compute_boolean_group, create_boolean_group,
    flatten_layer, is_fillable, joined_regions, polygons_bounds, ring_from_points, ring_to_points,
    ShapeStep,
};
use sdesign::color::Color32;
use sdesign::document::Page;
use sdesign::geometry::{Pos2, Rect, Vec2};
use sdesign::hit_test::{coverage_queries, hit_test, Coverage};
use sdesign::model::{BoolOp, CornerRadii, Frame, IdSource, Layer, LayerId, LayerKind, PathPolygon};
use sdesign::scalar::Scalar;
use sdesign::style::Paint;

#[derive(Clone, Copy, Debug, PartialEq)]
struct R(f32);

impl Scalar for R {
    fn ratio(num: i32, den: i32) -> Self {
        R(num as f32 / den as f32)
    }
    fn of_count(n: u64) -> Self {
        R(n as f32)
    }
    fn of_int(n: i64) -> Self {
        R(n as f32)
    }
    fn plus(self, other: Self) -> Self {
        R(self.0 + other.0)
    }
    fn minus(self, other: Self) -> Self {
        R(self.0 - other.0)
    }
    fn times(self, other: Self) -> Self {
        R(self.0 * other.0)
    }
    fn over(self, other: Self) -> Self {
        R(self.0 / other.0)
    }
    fn negated(self) -> Self {
        R(-self.0)
    }
    fn magnitude(self) -> Self {
        R(self.0.abs())
    }
    fn lesser(self, other: Self) -> Self {
        R(self.0.min(other.0))
    }
    fn greater(self, other: Self) -> Self {
        R(self.0.max(other.0))
    }
    fn is_lt(self, other: Self) -> bool {
        self.0 < other.0
    }
    fn is_le(self, other: Self) -> bool {
        self.0 <= other.0
    }
    fn is_same(self, other: Self) -> bool {
        self.0 == other.0
    }
    fn rounded(self) -> Self {
        R(self.0.round())
    }
    fn floored(self) -> Self {
        R(self.0.floor())
    }
    fn ceiled(self) -> Self {
        R(self.0.ceil())
    }
    fn decade(self) -> Self {
        R(10f32.powf(self.0.log10().floor()))
    }
    fn root(self) -> Self {
        R(self.0.sqrt())
    }
    fn hypot(self, other: Self) -> Self {
        R(self.0.hypot(other.0))
    }
    fn sin_deg(self) -> Self {
        R(self.0.to_radians().sin())
    }
    fn cos_deg(self) -> Self {
        R(self.0.to_radians().cos())
    }
    fn atan2(self, x: Self) -> Self {
        R(self.0.atan2(x.0))
    }
    fn to_degrees(self) -> Self {
        R(self.0.to_degrees())
    }
    fn is_finite(self) -> bool {
        self.0.is_finite()
    }
    fn to_i64(self) -> i64 {
        self.0 as i64
    }
}

fn p(x: f32, y: f32) -> Pos2<R> {
    Pos2::new(R(x), R(y))
}

fn v(x: f32, y: f32) -> Vec2<R> {
    Vec2::new(R(x), R(y))
}

fn frame(x: f32, y: f32, w: f32, h: f32, rotation: f32) -> Frame<R> {
    Frame { pos: p(x, y), size: v(w, h), rotation: R(rotation) }
}

fn rect(id: LayerId, name: &str, x: f32, y: f32, w: f32, h: f32) -> Layer<R> {
    Layer::new(
        id,
        name,
        frame(x, y, w, h, 0.0),
        LayerKind::Rectangle { corner_radius: CornerRadii::uniform(R(0.0)) },
    )
}

fn with_op(mut layer: Layer<R>, op: BoolOp) -> Layer<R> {
    layer.bool_op = op;
    layer
}

fn to_line(points: &[Pos2<R>]) -> LineString<f64> {
    let ring = ring_from_points(&points.to_vec());
    LineString::new(ring.iter().map(|q| Coord { x: q.x.0 as f64, y: q.y.0 as f64 }).collect())
}

fn to_ring(line: &LineString<f64>) -> Vec<Pos2<R>> {
    ring_to_points(&line.0.iter().map(|c| p(c.x as f32, c.y as f32)).collect())
}

fn to_region(polygons: &[PathPolygon<R>]) -> MultiPolygon<f64> {
    MultiPolygon::new(
        polygons
            .iter()
            .map(|q| {
                Polygon::new(to_line(&q.exterior), q.holes.iter().map(|h| to_line(h)).collect())
            })
            .collect(),
    )
}

fn to_polygons(region: &MultiPolygon<f64>) -> Vec<PathPolygon<R>> {
    region
        .0
        .iter()
        .map(|q| PathPolygon {
            exterior: to_ring(q.exterior()),
            holes: q.interiors().iter().map(to_ring).collect(),
        })
        .collect()
}

/// Runs the program of a region.
fn run(steps: &[ShapeStep<R>]) -> MultiPolygon<f64> {
    let mut stack: Vec<MultiPolygon<f64>> = Vec::new();
    for step in steps {
        match step {
            ShapeStep::Nothing => stack.push(MultiPolygon::new(Vec::new())),
            ShapeStep::Rings { polygons } => stack.push(to_region(polygons)),
            ShapeStep::Combine { op } => {
                let upper = stack.pop().unwrap();
                let lower = stack.pop().unwrap();
                stack.push(match op {
                    BoolOp::Union => lower.union(&upper),
                    BoolOp::Intersect => lower.intersection(&upper),
                    BoolOp::Difference => lower.xor(&upper),
                    BoolOp::Subtract => lower.difference(&upper),
                    BoolOp::Add => {
                        to_region(&joined_regions(to_polygons(&lower), to_polygons(&upper)))
                    }
                });
            }
            ShapeStep::Place { offset, center, degrees } => {
                let mut polygons = to_polygons(&stack.pop().unwrap());
                for q in &mut polygons {
                    for ring in std::iter::once(&mut q.exterior).chain(q.holes.iter_mut()) {
                        for point in ring.iter_mut() {
                            *point = point.plus(*offset).rotated(*center, *degrees);
                        }
                    }
                }
                stack.push(to_region(&polygons));
            }
        }
    }
    assert_eq!(stack.len(), 1);
    stack.pop().unwrap()
}

fn inside(region: &MultiPolygon<f64>, x: f32, y: f32) -> bool {
    region.contains(&Point::new(x as f64, y as f64))
}

/// What the boolean groups and masks of a page cover at a point.
fn coverage_at(page: &Page<R>, at: Pos2<R>) -> Coverage {
    let mut queries = Vec::new();
    coverage_queries(&page.layers, at, &mut queries);
    let mut coverage = Coverage { solid: Vec::new(), revealing: Vec::new() };
    for query in queries {
        let layer = page.find(query.id).unwrap();
        let mut steps = Vec::new();
        if flatten_layer(layer, &mut steps) && inside(&run(&steps), query.pos.x.0, query.pos.y.0) {
            if layer.is_mask {
                coverage.revealing.push(query.id);
            }
            coverage.solid.push(query.id);
        }
    }
    coverage
}

fn hit(page: &Page<R>, x: f32, y: f32) -> Option<LayerId> {
    hit_test(page, p(x, y), &coverage_at(page, p(x, y)))
}

#[test]
fn compute_boolean_group_unions_two_overlapping_rects() {
    let a = rect(1, "A", 0.0, 0.0, 40.0, 40.0);
    let b = with_op(rect(2, "B", 20.0, 20.0, 40.0, 40.0), BoolOp::Union);

    let combined = run(&compute_boolean_group(&vec![a, b]));

    assert!(inside(&combined, 5.0, 5.0), "in-A-only point should be covered");
    assert!(inside(&combined, 55.0, 55.0), "in-B-only point should be covered");
    assert!(inside(&combined, 25.0, 25.0), "overlap point should be covered");
    assert!(!inside(&combined, 2.0, 58.0), "point outside both should not be covered");
}

#[test]
fn compute_boolean_group_subtract_punches_a_hole() {
    let base = rect(1, "Base", 0.0, 0.0, 60.0, 60.0);
    let hole = with_op(rect(2, "Hole", 20.0, 20.0, 20.0, 20.0), BoolOp::Subtract);

    let combined = run(&compute_boolean_group(&vec![base, hole]));

    assert!(!inside(&combined, 30.0, 30.0), "subtracted region should be a real hole");
    assert!(inside(&combined, 5.0, 5.0), "rest of the base should remain covered");
}

#[test]
fn compute_boolean_group_intersect_keeps_only_the_overlap() {
    let a = rect(1, "A", 0.0, 0.0, 40.0, 40.0);
    let b = with_op(rect(2, "B", 20.0, 20.0, 40.0, 40.0), BoolOp::Intersect);

    let combined = run(&compute_boolean_group(&vec![a, b]));

    assert!(inside(&combined, 25.0, 25.0), "overlap point should be covered");
    assert!(!inside(&combined, 5.0, 5.0), "in-A-only point should not be covered");
    assert!(!inside(&combined, 55.0, 55.0), "in-B-only point should not be covered");
}

#[test]
fn compute_boolean_group_add_concatenates_without_clipping() {
    let a = rect(1, "A", 0.0, 0.0, 40.0, 40.0);
    let b = with_op(rect(2, "B", 20.0, 20.0, 40.0, 40.0), BoolOp::Add);

    let combined = run(&compute_boolean_group(&vec![a, b]));

    // No clipping happened: two disjoint pieces, unlike Union's one.
    assert_eq!(combined.0.len(), 2, "Add should keep operands as separate, unclipped pieces");
}

#[test]
fn compute_boolean_group_ignores_hidden_children() {
    let a = rect(1, "A", 0.0, 0.0, 40.0, 40.0);
    let mut b = with_op(rect(2, "B", 60.0, 0.0, 20.0, 20.0), BoolOp::Union);
    b.visible = false;

    let combined = run(&compute_boolean_group(&vec![a, b]));

    assert!(inside(&combined, 5.0, 5.0), "visible base should still be covered");
    assert!(!inside(&combined, 65.0, 5.0), "hidden child should not contribute");
}

#[test]
fn compute_boolean_group_ignores_the_base_childs_own_bool_op() {
    let a = with_op(rect(1, "A", 0.0, 0.0, 40.0, 40.0), BoolOp::Subtract);
    let b = with_op(rect(2, "B", 20.0, 20.0, 40.0, 40.0), BoolOp::Union);

    let combined = run(&compute_boolean_group(&vec![a, b]));

    assert!(
        inside(&combined, 5.0, 5.0),
        "should union, not subtract, ignoring base's own bool_op"
    );
}

#[test]
fn a_group_of_nothing_is_the_empty_region() {
    let line = Layer::new(1, "Line", frame(0.0, 0.0, 10.0, 10.0, 0.0), LayerKind::Line);
    assert!(run(&compute_boolean_group(&vec![line])).0.is_empty());
    assert!(run(&compute_boolean_group(&Vec::new())).0.is_empty());
}

#[test]
fn flatten_layer_handles_a_nested_boolean_group_rotated_and_offset() {
    let a = rect(1, "A", 0.0, 0.0, 40.0, 40.0);
    let b = with_op(rect(2, "B", 20.0, 20.0, 40.0, 40.0), BoolOp::Union);
    let bbox = Rect::from_two_pos(p(0.0, 0.0), p(60.0, 60.0));
    let mut outer = Layer::new(
        3,
        "Inner",
        Frame::from_bounds(bbox),
        LayerKind::BooleanGroup { children: vec![a, b] },
    );
    outer.frame.pos = p(100.0, 50.0);

    let mut steps = Vec::new();
    assert!(flatten_layer(&outer, &mut steps), "nested BooleanGroup should flatten");
    let flattened = run(&steps);
    assert!(
        inside(&flattened, 105.0, 55.0),
        "flattened geometry should be translated by the outer layer's own frame.pos"
    );
    assert!(!inside(&flattened, 5.0, 5.0), "untranslated point should no longer be covered");
}

#[test]
fn create_boolean_group_wraps_originals_as_still_editable_children() {
    let mut page = Page::new("Test");
    let mut a = rect(1, "A", 0.0, 0.0, 40.0, 40.0);
    a.style.fill = Some(Paint::Solid(Color32::from_rgb(200, 0, 0)));
    page.layers.push(a);
    page.layers.push(rect(2, "B", 20.0, 20.0, 40.0, 40.0));
    let mut source = IdSource::starting_at(3);

    let group_id = create_boolean_group(&mut page, &[1, 2], BoolOp::Subtract, &mut source)
        .expect("valid selection should produce a group");

    assert_eq!(page.layers.len(), 1);
    let group = page.find(group_id).expect("group should be findable");
    assert_eq!(group.name, "Subtract");
    let LayerKind::BooleanGroup { children } = &group.kind else {
        panic!("expected a BooleanGroup")
    };
    assert_eq!(children.len(), 2);
    assert_eq!(children[1].bool_op, BoolOp::Subtract);
    assert_eq!(children[0].style.fill, Some(Paint::Solid(Color32::from_rgb(200, 0, 0))));
}

#[test]
fn create_boolean_group_aborts_without_mutating_on_an_ineligible_operand() {
    let mut page = Page::new("Test");
    page.layers.push(rect(1, "A", 0.0, 0.0, 40.0, 40.0));
    page.layers.push(Layer::new(2, "Line", frame(0.0, 0.0, 10.0, 10.0, 0.0), LayerKind::Line));
    let mut source = IdSource::starting_at(3);

    let result = create_boolean_group(&mut page, &[1, 2], BoolOp::Union, &mut source);

    assert!(result.is_none(), "a Line can't participate in a boolean op");
    assert_eq!(page.layers.len(), 2, "selection should be left untouched on abort");
}

#[test]
fn the_destructive_operation_leaves_one_layer_with_the_front_ones_style() {
    let mut page = Page::new("Test");
    page.layers.push(rect(1, "A", 10.0, 10.0, 40.0, 40.0));
    let mut b = rect(2, "B", 30.0, 30.0, 40.0, 40.0);
    b.style.fill = Some(Paint::Solid(Color32::from_rgb(0, 200, 0)));
    page.layers.push(b);
    let mut source = IdSource::starting_at(3);

    let program = boolean_op_program(&page, &[1, 2], BoolOp::Union).unwrap();
    let result = to_polygons(&run(&program));
    assert_eq!(
        polygons_bounds(&result),
        Some(Rect::from_min_max(p(10.0, 10.0), p(70.0, 70.0)))
    );
    let id = apply_boolean_op(&mut page, &[1, 2], BoolOp::Union, &result, &mut source).unwrap();
    assert_eq!(page.layers.len(), 1);
    let layer = page.find(id).unwrap();
    assert_eq!(layer.name, "Union");
    assert_eq!(layer.frame, frame(10.0, 10.0, 60.0, 60.0, 0.0));
    assert_eq!(layer.style.fill, Some(Paint::Solid(Color32::from_rgb(0, 200, 0))));
    let LayerKind::CompoundPath { polygons } = &layer.kind else { panic!("expected a path") };
    let moved = to_region(polygons);
    assert!(inside(&moved, 5.0, 5.0) && inside(&moved, 55.0, 55.0) && !inside(&moved, 5.0, 55.0));
}

#[test]
fn the_destructive_operation_fails_on_an_empty_result_or_a_line() {
    let mut page = Page::new("Test");
    page.layers.push(rect(1, "A", 0.0, 0.0, 10.0, 10.0));
    page.layers.push(rect(2, "B", 30.0, 30.0, 10.0, 10.0));
    page.layers.push(Layer::new(3, "Line", frame(0.0, 0.0, 10.0, 10.0, 0.0), LayerKind::Line));
    let mut source = IdSource::starting_at(4);
    let program = boolean_op_program(&page, &[1, 2], BoolOp::Intersect).unwrap();
    let empty = to_polygons(&run(&program));
    assert!(empty.is_empty());
    assert!(apply_boolean_op(&mut page, &[1, 2], BoolOp::Intersect, &empty, &mut source).is_none());
    assert!(boolean_op_program(&page, &[1, 3], BoolOp::Union).is_none());
    assert!(boolean_op_program(&page, &[1], BoolOp::Union).is_none());
    assert_eq!(page.layers.len(), 3);
    assert!(is_fillable(&page.layers[0]) && !is_fillable(&page.layers[2]));
}

#[test]
fn rings_are_closed_once_and_opened_again() {
    let open = vec![p(0.0, 0.0), p(4.0, 0.0), p(4.0, 4.0)];
    let closed = ring_from_points(&open);
    assert_eq!(closed.len(), 4);
    assert_eq!(closed[3], closed[0]);
    assert_eq!(ring_from_points(&closed).len(), 4);
    assert_eq!(ring_to_points(&closed), open);
    assert_eq!(ring_to_points(&open), open);
}

#[test]
fn hit_test_respects_rotation() {
    let mut page = Page::new("Page 1");
    let mut layer = rect(1, "Rect", 0.0, 0.0, 20.0, 20.0);
    layer.frame.rotation = R(45.0);
    page.layers.push(layer);

    // The center is unaffected by rotation (it's the pivot).
    assert!(hit(&page, 10.0, 10.0).is_some());
    // The unrotated frame's own corner (0,0) is now outside the
    // rotated (45 degree) square's actual diagonal-edged footprint.
    assert!(hit(&page, 1.0, 1.0).is_none());
    // A point along the rotated square's actual edge, straight up from
    // the center by half its diagonal, should hit.
    let half_diagonal = 10.0 * std::f32::consts::SQRT_2 * 0.5;
    assert!(hit(&page, 10.0, 10.0 - half_diagonal + 0.5).is_some());
}

#[test]
fn hit_test_skips_masked_out_region_of_content_layer() {
    let mut square = rect(1, "Square", -50.0, -50.0, 200.0, 200.0);
    square.style.fill = Some(Paint::Solid(Color32::from_rgb(255, 0, 0)));
    let mut mask = Layer::new(2, "Mask", frame(0.0, 0.0, 100.0, 100.0, 0.0), LayerKind::Oval);
    mask.is_mask = true;
    let mut page = Page::new("Page 1");
    page.layers.push(square);
    page.layers.push(mask);

    // Center: within the mask's own bounding box, so the mask (topmost)
    // claims the hit itself, same as any other layer stacked on top.
    assert_eq!(hit(&page, 50.0, 50.0), Some(2));
    // Well outside the mask's bounding box entirely, but still deep
    // inside the square's own (much bigger) bounding box.
    assert_eq!(hit(&page, -20.0, -20.0), None);
}

fn boolean_group(children: Vec<Layer<R>>) -> Layer<R> {
    Layer::new(
        9,
        "Boolean Group",
        frame(0.0, 0.0, 60.0, 60.0, 0.0),
        LayerKind::BooleanGroup { children },
    )
}

#[test]
fn hit_test_a_boolean_group_selects_the_group_not_a_child() {
    let a = rect(1, "A", 0.0, 0.0, 40.0, 40.0);
    let b = with_op(rect(2, "B", 20.0, 20.0, 40.0, 40.0), BoolOp::Union);
    let mut page = Page::new("Page 1");
    page.layers.push(boolean_group(vec![a, b]));

    assert_eq!(hit(&page, 25.0, 25.0), Some(9));
    // Inside A only.
    assert_eq!(hit(&page, 5.0, 5.0), Some(9));
}

#[test]
fn hit_test_a_boolean_group_is_exact_not_just_bounding_box() {
    let base = rect(1, "Base", 0.0, 0.0, 60.0, 60.0);
    let hole = with_op(rect(2, "Hole", 20.0, 20.0, 20.0, 20.0), BoolOp::Subtract);
    let mut page = Page::new("Page 1");
    page.layers.push(boolean_group(vec![base, hole]));

    // Inside the punched-out hole but well within the group's bounding box.
    assert_eq!(hit(&page, 30.0, 30.0), None);
}

#[test]
fn hit_test_a_masked_boolean_group_still_respects_the_mask() {
    let a = rect(1, "A", 0.0, 0.0, 40.0, 40.0);
    let b = with_op(rect(2, "B", 20.0, 20.0, 40.0, 40.0), BoolOp::Union);
    let mut mask = rect(3, "Mask", 0.0, 0.0, 30.0, 60.0);
    mask.is_mask = true;
    let mut page = Page::new("Page 1");
    page.layers.push(boolean_group(vec![a, b]));
    page.layers.push(mask);

    // Inside the group's own silhouette (the A/B overlap) but outside
    // the mask's coverage (x > 30) — should be clipped away entirely.
    assert_eq!(hit(&page, 55.0, 55.0), None);
}

#[test]
fn joined_regions_keep_every_polygon_and_their_order() {
    let square = |x: f32| PathPolygon {
        exterior: vec![p(x, 0.0), p(x + 10.0, 0.0), p(x + 10.0, 10.0), p(x, 10.0)],
        holes: vec![vec![p(x + 1.0, 1.0), p(x + 2.0, 1.0), p(x + 2.0, 2.0)]],
    };
    let joined = joined_regions(vec![square(0.0), square(5.0)], vec![square(0.0)]);
    assert_eq!(joined, vec![square(0.0), square(5.0), square(0.0)]);
    assert_eq!(joined_regions(Vec::new(), vec![square(3.0)]), vec![square(3.0)]);
}
