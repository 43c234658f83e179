use sdesign::document::{Document, Page};
use sdesign::geometry::{Pos2, Vec2};
use sdesign::grouping::{
    duplicate_layers, duplicate_layers_below, group_layers, move_layer, parent_and_index,
    siblings_of, ungroup,
};
use sdesign::history::History;
use sdesign::model::{CornerRadii, Frame, IdSource, Layer, LayerId, LayerKind};
use sdesign::names::increment_trailing_number;
use sdesign::scalar::Scalar;

#[derive(Clone, Copy, Debug, PartialEq)]
struct R(f32);

impl Scalar for R {
    fn ratio(num: i32, den: i32) -> Self {
        R(num as f32 / den as f32)
    }
    fn of_count(n: u64) -> Self {
        R(n as f32)
    }
    fn of_int(n: i64) -> Self {
        R(n as f32)
    }
    fn plus(self, other: Self) -> Self {
        R(self.0 + other.0)
    }
    fn minus(self, other: Self) -> Self {
        R(self.0 - other.0)
    }
    fn times(self, other: Self) -> Self {
        R(self.0 * other.0)
    }
    fn over(self, other: Self) -> Self {
        R(self.0 / other.0)
    }
    fn negated(self) -> Self {
        R(-self.0)
    }
    fn magnitude(self) -> Self {
        R(self.0.abs())
    }
    fn lesser(self, other: Self) -> Self {
        R(self.0.min(other.0))
    }
    fn greater(self, other: Self) -> Self {
        R(self.0.max(other.0))
    }
    fn is_lt(self, other: Self) -> bool {
        self.0 < other.0
    }
    fn is_le(self, other: Self) -> bool {
        self.0 <= other.0
    }
    fn is_same(self, other: Self) -> bool {
        self.0 == other.0
    }
    fn rounded(self) -> Self {
        R(self.0.round())
    }
    fn floored(self) -> Self {
        R(self.0.floor())
    }
    fn ceiled(self) -> Self {
        R(self.0.ceil())
    }
    fn decade(self) -> Self {
        R(10f32.powf(self.0.log10().floor()))
    }
    fn root(self) -> Self {
        R(self.0.sqrt())
    }
    fn hypot(self, other: Self) -> Self {
        R(self.0.hypot(other.0))
    }
    fn sin_deg(self) -> Self {
        R(self.0.to_radians().sin())
    }
    fn cos_deg(self) -> Self {
        R(self.0.to_radians().cos())
    }
    fn atan2(self, x: Self) -> Self {
        R(self.0.atan2(x.0))
    }
    fn to_degrees(self) -> Self {
        R(self.0.to_degrees())
    }
    fn is_finite(self) -> bool {
        self.0.is_finite()
    }
    fn to_i64(self) -> i64 {
        self.0 as i64
    }
}

fn p(x: f32, y: f32) -> Pos2<R> {
    Pos2::new(R(x), R(y))
}

fn v(x: f32, y: f32) -> Vec2<R> {
    Vec2::new(R(x), R(y))
}

fn frame(x: f32, y: f32, w: f32, h: f32, rotation: f32) -> Frame<R> {
    Frame { pos: p(x, y), size: v(w, h), rotation: R(rotation) }
}

fn square_corners() -> LayerKind<R> {
    LayerKind::Rectangle { corner_radius: CornerRadii::uniform(R(0.0)) }
}

fn rect(id: LayerId, name: &str) -> Layer<R> {
    Layer::new(id, name, frame(0.0, 0.0, 10.0, 10.0, 0.0), square_corners())
}

fn group(id: LayerId, name: &str, children: Vec<Layer<R>>) -> Layer<R> {
    Layer::new(id, name, frame(0.0, 0.0, 10.0, 10.0, 0.0), LayerKind::Group { children })
}

fn names(page: &Page<R>) -> Vec<&str> {
    page.layers.iter().map(|l| l.name.as_str()).collect()
}

fn page_of(layers: Vec<Layer<R>>) -> Page<R> {
    let mut page = Page::new("Page 1");
    page.layers = layers;
    page
}

#[test]
fn group_layers_bbox_tightly_wraps_a_rotated_childs_visual_footprint() {
    let rotated = Layer::new(1, "Rotated", frame(0.0, 0.0, 20.0, 20.0, 45.0), square_corners());
    let mut page = page_of(vec![rotated]);
    let mut ids = IdSource::starting_at(2);

    let group_id = group_layers(&mut page, &[1], &mut ids).expect("should group");
    let group = page.find(group_id).expect("group should exist");

    let rotated_aabb_side = 20.0 * std::f32::consts::SQRT_2;
    assert!((group.frame.size.x.0 - rotated_aabb_side).abs() < 0.5);
    assert!((group.frame.size.y.0 - rotated_aabb_side).abs() < 0.5);

    let LayerKind::Group { children } = &group.kind else { unreachable!() };
    assert_eq!(children[0].frame.rotation, R(45.0));
}

#[test]
fn move_layer_reorders_within_the_same_top_level_list() {
    let mut page = page_of(vec![rect(1, "A"), rect(2, "B"), rect(3, "C")]);
    move_layer(&mut page, 1, None, 3);
    assert_eq!(names(&page), vec!["B", "C", "A"]);
}

#[test]
fn move_layer_moves_a_layer_into_a_group() {
    let mut page = page_of(vec![rect(1, "Loose"), group(2, "Group", vec![rect(3, "Inside")])]);
    move_layer(&mut page, 1, Some(2), 0);
    assert_eq!(names(&page), vec!["Group"]);
    let LayerKind::Group { children } = &page.layers[0].kind else { unreachable!() };
    assert_eq!(children.iter().map(|l| l.name.as_str()).collect::<Vec<_>>(), vec!["Loose", "Inside"]);
}

#[test]
fn move_layer_moves_a_layer_out_of_a_group_to_the_top_level() {
    let mut page = page_of(vec![group(2, "Group", vec![rect(3, "Inside")])]);
    move_layer(&mut page, 3, None, 0);
    assert_eq!(names(&page), vec!["Inside", "Group"]);
    let LayerKind::Group { children } = &page.layers[1].kind else { unreachable!() };
    assert!(children.is_empty());
}

#[test]
fn move_layer_into_its_own_descendant_is_a_noop() {
    let inner = group(1, "Inner", vec![]);
    let mut page = page_of(vec![group(2, "Outer", vec![inner])]);
    move_layer(&mut page, 2, Some(1), 0);
    assert_eq!(names(&page), vec!["Outer"]);
    let LayerKind::Group { children } = &page.layers[0].kind else { unreachable!() };
    assert_eq!(children.len(), 1);
    assert_eq!(children[0].id, 1);
}

#[test]
fn siblings_of_returns_the_common_parents_children() {
    let page = page_of(vec![rect(1, "Loose"), group(2, "Group", vec![rect(3, "Inner")])]);
    assert_eq!(siblings_of(&page, &[3]), vec![3]);
}

#[test]
fn siblings_of_falls_back_to_top_level_when_empty_or_no_common_parent() {
    let page = page_of(vec![rect(1, "A"), rect(2, "B")]);
    let top_level: Vec<LayerId> = page.layers.iter().map(|l| l.id).collect();
    assert_eq!(siblings_of(&page, &[]), top_level);
    assert_eq!(siblings_of(&page, &[99]), top_level);
}

#[test]
fn increment_trailing_number_increments_a_trailing_count() {
    assert_eq!(increment_trailing_number("Frame 1"), "Frame 2");
    assert_eq!(increment_trailing_number("Rectangle 9"), "Rectangle 10");
}

#[test]
fn increment_trailing_number_leaves_custom_names_unchanged() {
    assert_eq!(increment_trailing_number("Icon"), "Icon");
    assert_eq!(increment_trailing_number("My Cool Shape"), "My Cool Shape");
}

#[test]
fn increment_trailing_number_at_the_edges() {
    assert_eq!(increment_trailing_number(""), "");
    assert_eq!(increment_trailing_number("Frame "), "Frame ");
    assert_eq!(increment_trailing_number(" 7"), " 8");
    assert_eq!(increment_trailing_number("Frame 007"), "Frame 8");
    assert_eq!(increment_trailing_number("Frame 1a"), "Frame 1a");
    assert_eq!(increment_trailing_number("Frame 99999999999999999999"), "Frame 99999999999999999999");
    assert_eq!(increment_trailing_number("Formé 199"), "Formé 200");
}

#[test]
fn duplicate_layers_offsets_and_increments_default_names() {
    let mut page = page_of(vec![rect(1, "Rectangle 1")]);
    let mut ids = IdSource::starting_at(2);
    let new_ids = duplicate_layers(&mut page, &[1], v(5.0, 5.0), &mut ids);
    assert_eq!(new_ids.len(), 1);
    let dup = page.find(new_ids[0]).unwrap();
    assert_eq!(dup.name, "Rectangle 2");
    assert_eq!(dup.frame.pos, p(5.0, 5.0));
}

#[test]
fn duplicate_layers_below_inserts_before_the_original() {
    let mut page = page_of(vec![rect(1, "A")]);
    let mut ids = IdSource::starting_at(2);
    duplicate_layers_below(&mut page, &[1], v(0.0, 0.0), &mut ids);
    assert_eq!(page.layers[0].name, "A");
    assert_eq!(page.layers[1].id, 1);
}

#[test]
fn duplicating_a_group_renumbers_everything_in_it() {
    let mut page = page_of(vec![group(1, "Group 1", vec![rect(2, "X"), rect(3, "Y")]), rect(4, "Z")]);
    let mut ids = IdSource::starting_at(10);
    assert_eq!(duplicate_layers(&mut page, &[1, 99, 3], v(0.0, 0.0), &mut ids), vec![10, 13]);
    assert_eq!(names(&page), vec!["Group 1", "Group 2", "Z"]);
    assert_eq!(page.all_layer_ids(), vec![1, 2, 3, 13, 10, 11, 12, 4]);
    assert_eq!(ids.next, 14);
}

#[test]
fn parent_and_index_finds_top_level_and_nested_layers() {
    let page = page_of(vec![rect(1, "A"), group(2, "Group", vec![rect(3, "Inner")])]);
    assert_eq!(parent_and_index(&page.layers, 2), Some((None, 1)));
    assert_eq!(parent_and_index(&page.layers, 3), Some((Some(2), 0)));
    assert_eq!(parent_and_index(&page.layers, 99), None);
}

#[test]
fn move_layer_onto_itself_is_a_noop() {
    let mut page = page_of(vec![rect(1, "A")]);
    move_layer(&mut page, 1, Some(1), 0);
    assert_eq!(names(&page), vec!["A"]);
}

#[test]
fn move_layer_to_a_missing_parent_or_a_leaf_is_a_noop() {
    let mut page = page_of(vec![rect(1, "A"), group(2, "Group", vec![rect(3, "Inner")])]);
    move_layer(&mut page, 3, Some(99), 0);
    move_layer(&mut page, 3, Some(1), 0);
    assert_eq!(page.all_layer_ids(), vec![1, 2, 3]);
}

#[test]
fn ungroup_undoes_group() {
    let mut page = page_of(vec![rect(1, "A"), rect(2, "B"), rect(3, "C"), rect(4, "D")]);
    page.layers[1].frame.pos = p(30.0, 5.0);
    let mut ids = IdSource::starting_at(10);
    let g = group_layers(&mut page, &[2, 3], &mut ids).unwrap();
    assert_eq!(names(&page), vec!["A", "Group", "D"]);
    assert_eq!(page.find(g).unwrap().frame, frame(0.0, 0.0, 40.0, 15.0, 0.0));
    assert_eq!(ungroup(&mut page, g), vec![2, 3]);
    assert_eq!(names(&page), vec!["A", "B", "C", "D"]);
    assert_eq!(page.layers[1].frame.pos, p(30.0, 5.0));
    assert_eq!(ungroup(&mut page, 1), Vec::<LayerId>::new());
    assert_eq!(group_layers(&mut page, &[1, 99], &mut ids), None);
}

#[test]
fn history_undoes_and_redoes() {
    let mut history = History::new(Document::<R>::new());
    assert!(!history.can_undo() && !history.can_redo());
    history.snapshot();
    history.mutate().active_page_mut().layers.push(rect(1, "A"));
    assert!(history.can_undo());
    history.undo();
    assert_eq!(history.get().active_page().layers.len(), 0);
    assert!(history.can_redo());
    history.redo();
    assert_eq!(history.get().active_page().layers.len(), 1);
    history.undo();
    history.snapshot();
    assert!(!history.can_redo());
    history.replace(Document::new());
    assert!(!history.can_undo());
}

#[test]
fn history_keeps_two_hundred_states() {
    let mut history = History::new(Document::<R>::new());
    for _ in 0..250 {
        history.snapshot();
    }
    let mut undone = 0;
    while history.can_undo() {
        history.undo();
        undone += 1;
    }
    assert_eq!(undone, 200);
}

#[test]
fn ungrouping_neighbours_restores_the_page() {
    let mut layers = vec![rect(1, "A"), rect(2, "B"), rect(3, "C"), rect(4, "D")];
    layers[1].frame.pos = p(30.0, 8.0);
    layers[2].frame.pos = p(64.0, 5.0);
    let mut page = page_of(layers);
    let before = page.duplicate();
    let mut source = IdSource::starting_at(50);
    let group = group_layers(&mut page, &[2, 3], &mut source).unwrap();
    assert_eq!(page.find(group).unwrap().frame.pos, p(30.0, 5.0));
    assert_eq!(page.find(2).unwrap().frame.pos, p(0.0, 3.0));
    assert_eq!(ungroup(&mut page, group), vec![2, 3]);
    assert_eq!(page.layers, before.layers);
}
