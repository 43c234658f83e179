use sdesign::alignment::{
    align, artboard_bounds_in_parent_space, column_count, distribute, tidy, AlignEdge,
    DistributeAxis,
};
use sdesign::document::Page;
use sdesign::fixed::Fixed;
use sdesign::geometry::{Pos2, Rect, Vec2};
use sdesign::grid_ops::make_grid;
use sdesign::model::{CornerRadii, Frame, IdSource, Layer, LayerId, LayerKind};
use sdesign::placement::new_artboard;
use sdesign::scalar::Scalar;

#[derive(Clone, Copy, Debug, PartialEq)]
struct R(f32);

impl Scalar for R {
    fn ratio(num: i32, den: i32) -> Self {
        R(num as f32 / den as f32)
    }
    fn of_count(n: u64) -> Self {
        R(n as f32)
    }
    fn of_int(n: i64) -> Self {
        R(n as f32)
    }
    fn plus(self, other: Self) -> Self {
        R(self.0 + other.0)
    }
    fn minus(self, other: Self) -> Self {
        R(self.0 - other.0)
    }
    fn times(self, other: Self) -> Self {
        R(self.0 * other.0)
    }
    fn over(self, other: Self) -> Self {
        R(self.0 / other.0)
    }
    fn negated(self) -> Self {
        R(-self.0)
    }
    fn magnitude(self) -> Self {
        R(self.0.abs())
    }
    fn lesser(self, other: Self) -> Self {
        R(self.0.min(other.0))
    }
    fn greater(self, other: Self) -> Self {
        R(self.0.max(other.0))
    }
    fn is_lt(self, other: Self) -> bool {
        self.0 < other.0
    }
    fn is_le(self, other: Self) -> bool {
        self.0 <= other.0
    }
    fn is_same(self, other: Self) -> bool {
        self.0 == other.0
    }
    fn rounded(self) -> Self {
        R(self.0.round())
    }
    fn floored(self) -> Self {
        R(self.0.floor())
    }
    fn ceiled(self) -> Self {
        R(self.0.ceil())
    }
    fn decade(self) -> Self {
        R(10f32.powf(self.0.log10().floor()))
    }
    fn root(self) -> Self {
        R(self.0.sqrt())
    }
    fn hypot(self, other: Self) -> Self {
        R(self.0.hypot(other.0))
    }
    fn sin_deg(self) -> Self {
        R(self.0.to_radians().sin())
    }
    fn cos_deg(self) -> Self {
        R(self.0.to_radians().cos())
    }
    fn atan2(self, x: Self) -> Self {
        R(self.0.atan2(x.0))
    }
    fn to_degrees(self) -> Self {
        R(self.0.to_degrees())
    }
    fn is_finite(self) -> bool {
        self.0.is_finite()
    }
    fn to_i64(self) -> i64 {
        self.0 as i64
    }
}

fn p(x: f32, y: f32) -> Pos2<R> {
    Pos2::new(R(x), R(y))
}

fn v(x: f32, y: f32) -> Vec2<R> {
    Vec2::new(R(x), R(y))
}

fn rect_layer(id: LayerId, name: &str, x: f32, y: f32, w: f32, h: f32) -> Layer<R> {
    Layer::new(
        id,
        name,
        Frame::from_two_points(p(x, y), p(x + w, y + h)),
        LayerKind::Rectangle { corner_radius: CornerRadii::uniform(R(0.0)) },
    )
}

fn page_with(layers: Vec<Layer<R>>) -> (Page<R>, Vec<LayerId>) {
    let ids = layers.iter().map(|l| l.id).collect();
    let mut page = Page::new("Page 1");
    page.layers = layers;
    (page, ids)
}

#[test]
fn align_left_moves_frames_to_bbox_min_x_preserving_size() {
    let (mut page, ids) = page_with(vec![
        rect_layer(1, "A", 0.0, 0.0, 10.0, 10.0),
        rect_layer(2, "B", 50.0, 20.0, 30.0, 5.0),
    ]);
    align(&mut page, &ids, AlignEdge::Left, None);
    assert_eq!(page.layers[0].frame.pos, p(0.0, 0.0));
    assert_eq!(page.layers[1].frame.pos, p(0.0, 20.0));
    assert_eq!(page.layers[1].frame.size, v(30.0, 5.0));
}

#[test]
fn align_hcenter_centers_on_bbox_center() {
    let (mut page, ids) = page_with(vec![
        rect_layer(1, "A", 0.0, 0.0, 10.0, 10.0),
        rect_layer(2, "B", 40.0, 0.0, 10.0, 10.0),
    ]);
    align(&mut page, &ids, AlignEdge::HCenter, None);
    // bbox spans x 0..50, center x = 25; both 10-wide layers center on 25.
    assert_eq!(page.layers[0].frame.bounds().center().x, R(25.0));
    assert_eq!(page.layers[1].frame.bounds().center().x, R(25.0));
}

#[test]
fn align_preserves_line_direction() {
    let mut line = Layer::new(
        1,
        "Line",
        Frame::from_two_points(p(20.0, 20.0), p(0.0, 0.0)),
        LayerKind::Line,
    );
    line.frame.pos = p(20.0, 20.0);
    line.frame.size = v(-20.0, -20.0);
    let rect = rect_layer(2, "R", 0.0, 0.0, 10.0, 10.0);
    let (mut page, ids) = page_with(vec![line, rect]);

    align(&mut page, &ids, AlignEdge::Top, None);

    // Direction (negative size) must survive the translate.
    assert_eq!(page.layers[0].frame.size, v(-20.0, -20.0));
}

#[test]
fn align_rotated_shape_uses_its_visual_footprint_not_local_bounds() {
    let mut rotated = rect_layer(1, "Rotated", 0.0, 0.0, 20.0, 20.0);
    rotated.frame.rotation = R(45.0);
    let plain = rect_layer(2, "Plain", 100.0, 0.0, 20.0, 20.0);
    let (mut page, ids) = page_with(vec![rotated, plain]);

    align(&mut page, &ids, AlignEdge::Left, None);

    let bbox_min_x =
        page.layers.iter().map(|l| l.frame.rotated_bounds().min.x.0).fold(f32::INFINITY, f32::min);
    for layer in &page.layers {
        assert!(
            (layer.frame.rotated_bounds().min.x.0 - bbox_min_x).abs() < 1e-3,
            "layer {} visual left edge {:?} should match bbox min {bbox_min_x}",
            layer.name,
            layer.frame.rotated_bounds().min.x
        );
    }
}

#[test]
fn align_with_fewer_than_two_is_noop() {
    let (mut page, ids) = page_with(vec![rect_layer(1, "A", 5.0, 5.0, 10.0, 10.0)]);
    align(&mut page, &ids, AlignEdge::Left, None);
    assert_eq!(page.layers[0].frame.pos, p(5.0, 5.0));
}

#[test]
fn align_to_a_box_moves_every_layer_to_its_edge() {
    let (mut page, ids) = page_with(vec![
        rect_layer(1, "A", 5.0, 5.0, 10.0, 10.0),
        rect_layer(2, "B", 7.0, 9.0, 20.0, 20.0),
    ]);
    let board = Rect::from_min_size(p(0.0, 0.0), v(100.0, 50.0));
    align(&mut page, &ids, AlignEdge::Right, Some(board));
    assert_eq!(page.layers[0].frame.pos, p(90.0, 5.0));
    assert_eq!(page.layers[1].frame.pos, p(80.0, 9.0));
    align(&mut page, &ids, AlignEdge::VCenter, Some(board));
    assert_eq!(page.layers[0].frame.pos, p(90.0, 20.0));
    align(&mut page, &ids, AlignEdge::Bottom, Some(board));
    assert_eq!(page.layers[1].frame.pos, p(80.0, 30.0));
}

#[test]
fn distribute_horizontal_equalizes_gaps_and_fixes_endpoints() {
    let (mut page, ids) = page_with(vec![
        rect_layer(1, "A", 0.0, 0.0, 10.0, 10.0),
        rect_layer(2, "B", 15.0, 0.0, 10.0, 10.0),
        rect_layer(3, "C", 90.0, 0.0, 10.0, 10.0),
    ]);
    distribute(&mut page, &ids, DistributeAxis::Horizontal);

    // Endpoints stay fixed.
    assert_eq!(page.layers[0].frame.bounds().min.x, R(0.0));
    assert_eq!(page.layers[2].frame.bounds().min.x, R(90.0));
    // Span 0..100, three 10-wide items, remaining 70 split into 2 gaps of 35.
    assert_eq!(page.layers[1].frame.bounds().min.x, R(45.0));
}

#[test]
fn distribute_vertical_equalizes_gaps() {
    let (mut page, ids) = page_with(vec![
        rect_layer(1, "C", 0.0, 90.0, 10.0, 10.0),
        rect_layer(2, "B", 0.0, 15.0, 10.0, 20.0),
        rect_layer(3, "A", 0.0, 0.0, 10.0, 10.0),
    ]);
    distribute(&mut page, &ids, DistributeAxis::Vertical);
    assert_eq!(page.layers[0].frame.pos, p(0.0, 90.0));
    assert_eq!(page.layers[1].frame.pos, p(0.0, 40.0));
    assert_eq!(page.layers[2].frame.pos, p(0.0, 0.0));
}

#[test]
fn distribute_with_fewer_than_three_is_noop() {
    let (mut page, ids) = page_with(vec![
        rect_layer(1, "A", 0.0, 0.0, 10.0, 10.0),
        rect_layer(2, "B", 15.0, 0.0, 10.0, 10.0),
    ]);
    distribute(&mut page, &ids, DistributeAxis::Horizontal);
    assert_eq!(page.layers[1].frame.pos, p(15.0, 0.0));
}

#[test]
fn tidy_arranges_four_layers_into_a_2x2_grid_with_spacing() {
    let (mut page, ids) = page_with(vec![
        rect_layer(1, "D", 500.0, 500.0, 10.0, 10.0),
        rect_layer(2, "B", 20.0, 0.0, 10.0, 10.0),
        rect_layer(3, "C", 0.0, 20.0, 10.0, 10.0),
        rect_layer(4, "A", 0.0, 0.0, 10.0, 10.0),
    ]);
    tidy(&mut page, &ids, R(5.0));

    let by_name = |name: &str| page.layers.iter().find(|l| l.name == name).unwrap().frame.pos;
    assert_eq!(by_name("A"), p(0.0, 0.0));
    assert_eq!(by_name("B"), p(15.0, 0.0));
    assert_eq!(by_name("C"), p(0.0, 15.0));
    assert_eq!(by_name("D"), p(15.0, 15.0));
}

#[test]
fn a_tidied_grid_is_as_near_square_as_it_gets() {
    assert_eq!((column_count(1), column_count(4), column_count(5), column_count(10)), (1, 2, 3, 4));
}

#[test]
fn artboard_bounds_in_parent_space_converts_to_the_childs_local_coordinates() {
    let child = rect_layer(1, "Child", 1.0, 1.0, 2.0, 2.0);
    let mut artboard = new_artboard(
        2,
        "Board",
        Frame { pos: p(100.0, 200.0), size: v(300.0, 300.0), rotation: R(0.0) },
    );
    let LayerKind::Artboard { children, .. } = &mut artboard.kind else { unreachable!() };
    children.push(child);
    let mut page = Page::new("Page 1");
    page.layers.push(artboard);

    let bounds = artboard_bounds_in_parent_space(&page, 1).expect("child is inside an artboard");
    assert_eq!(bounds, Rect::from_min_size(Pos2::zero(), v(300.0, 300.0)));
}

#[test]
fn artboard_bounds_in_parent_space_is_none_without_an_artboard_ancestor() {
    let (page, ids) = page_with(vec![rect_layer(1, "A", 0.0, 0.0, 10.0, 10.0)]);
    assert_eq!(artboard_bounds_in_parent_space(&page, ids[0]), None);
}

#[test]
fn make_grid_places_cols_times_rows_minus_one_new_layers_on_a_grid() {
    let (mut page, _) = page_with(vec![rect_layer(1, "Rect", 0.0, 0.0, 10.0, 10.0)]);
    let mut source = IdSource::starting_at(2);

    let new_ids = make_grid(&mut page, 1, 2, 3, R(5.0), R(5.0), &mut source);
    assert_eq!(new_ids.len(), 5); // 2*3 - 1 (the original)
    assert_eq!(page.layers.len(), 6);

    // Cell (col=1, row=2) should sit at (15, 30).
    let target = p(1.0 * (10.0 + 5.0), 2.0 * (10.0 + 5.0));
    assert!(page.layers.iter().any(|l| l.frame.pos == target));
    // The original stays exactly where it was.
    assert_eq!(page.find(1).unwrap().frame.pos, Pos2::zero());
}

#[test]
fn make_grid_with_zero_cols_or_rows_is_a_noop() {
    let (mut page, _) = page_with(vec![rect_layer(1, "Rect", 0.0, 0.0, 10.0, 10.0)]);
    let mut source = IdSource::starting_at(2);

    assert!(make_grid(&mut page, 1, 0, 3, R(5.0), R(5.0), &mut source).is_empty());
    assert_eq!(page.layers.len(), 1);
}

#[test]
fn one_layer_named_twice_is_not_aligned_to_a_target() {
    let (mut page, _) = page_with(vec![rect_layer(1, "A", 5.0, 5.0, 10.0, 10.0)]);
    let target = Rect::from_min_size(p(0.0, 0.0), v(100.0, 100.0));
    align(&mut page, &vec![1, 1], AlignEdge::Left, Some(target));
    assert_eq!(page.layers[0].frame.pos, p(5.0, 5.0));
    align(&mut page, &vec![1, 7], AlignEdge::Left, Some(target));
    assert_eq!(page.layers[0].frame.pos, p(5.0, 5.0));
}

fn fx(units: f64) -> Fixed {
    Fixed { raw: (units * 65536.0) as i32 }
}

fn fixed_box(id: LayerId, x: f64, y: f64, w: f64, h: f64, degrees: f64) -> Layer<Fixed> {
    Layer::new(
        id,
        "Box",
        Frame {
            pos: Pos2::new(fx(x), fx(y)),
            size: Vec2::new(fx(w), fx(h)),
            rotation: fx(degrees),
        },
        LayerKind::Rectangle { corner_radius: CornerRadii::uniform(fx(0.0)) },
    )
}

fn fixed_page() -> Page<Fixed> {
    let mut page = Page::new("Page 1");
    page.layers = vec![
        fixed_box(1, 0.0, 0.0, 10.0, 10.0, 0.0),
        fixed_box(2, 31.0, 7.0, 20.0, 11.0, 30.0),
        fixed_box(3, 47.0, -9.0, -13.0, 40.0, 77.0),
        fixed_box(4, 101.0, 60.0, 10.0, 10.0, 0.0),
    ];
    page
}

fn footprint(page: &Page<Fixed>, i: usize) -> Rect<Fixed> {
    page.layers[i].frame.rotated_bounds()
}

#[test]
fn aligned_layers_meet_the_target_turned_or_not() {
    let target = Rect::from_min_size(
        Pos2::new(fx(-3.25), fx(4.5)),
        Vec2::new(fx(200.0), fx(99.0)),
    );
    let edges: Vec<(AlignEdge, fn(Rect<Fixed>) -> Fixed)> = vec![
        (AlignEdge::Left, |b| b.min.x),
        (AlignEdge::HCenter, |b| b.center().x),
        (AlignEdge::Right, |b| b.max.x),
        (AlignEdge::Top, |b| b.min.y),
        (AlignEdge::VCenter, |b| b.center().y),
        (AlignEdge::Bottom, |b| b.max.y),
    ];
    for (edge, of) in edges {
        for align_to in [Some(target), None] {
            let mut page = fixed_page();
            let around = (1..4).fold(footprint(&page, 0), |b, i| b.union(footprint(&page, i)));
            align(&mut page, &vec![1, 2, 3, 4], edge, align_to);
            for i in 0..4 {
                assert_eq!(of(footprint(&page, i)), of(align_to.unwrap_or(around)));
            }
        }
    }
}

#[test]
fn distributed_gaps_are_equal_but_for_what_rounding_leaves() {
    let mut page = fixed_page();
    let widths: i32 = (0..4).map(|i| footprint(&page, i).width().raw).sum();
    let room = footprint(&page, 3).max.x.raw - footprint(&page, 0).min.x.raw - widths;
    let mut order: Vec<usize> = (0..4).collect();
    order.sort_by_key(|i| footprint(&page, *i).min.x.raw);
    distribute(&mut page, &vec![1, 2, 3, 4], DistributeAxis::Horizontal);
    let gap = |k: usize| {
        footprint(&page, order[k + 1]).min.x.raw - footprint(&page, order[k]).max.x.raw
    };
    assert_eq!((gap(0), gap(1)), (room.div_euclid(3), room.div_euclid(3)));
    assert_eq!(gap(2), room.div_euclid(3) + room.rem_euclid(3));
}

#[test]
fn tidied_layers_are_apart_and_keep_their_corner() {
    let mut page = fixed_page();
    let spacing = fx(2.5);
    let corner = |page: &Page<Fixed>| {
        let all = (1..4).fold(footprint(page, 0), |b, i| b.union(footprint(page, i)));
        all.min
    };
    let before = corner(&page);
    tidy(&mut page, &vec![1, 2, 3, 4], spacing);
    assert_eq!(corner(&page), before);
    for i in 0..4 {
        for j in i + 1..4 {
            let (a, b) = (footprint(&page, i), footprint(&page, j));
            let beside = |a: Fixed, b: Fixed| a.raw + spacing.raw <= b.raw;
            assert!(
                beside(a.max.x, b.min.x)
                    || beside(b.max.x, a.min.x)
                    || beside(a.max.y, b.min.y)
                    || beside(b.max.y, a.min.y)
            );
        }
    }
}
