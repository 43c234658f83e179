use sdesign::alignment::AlignEdge;
use sdesign::app::App;
use sdesign::canvas::{CanvasWidget, DragState};
use sdesign::clicks::Click;
use sdesign::clipboard::{frame_text, paste_layers, strip_text, SENTINEL};
use sdesign::color::Color32;
use sdesign::document::{Document, Guide, GuideOrientation, Swatch};
use sdesign::dropping::{join_ids, turn_over, Release};
use sdesign::edits::{edit_each, remove_one, LayerEdit};
use sdesign::geometry::{Pos2, Rect, Vec2};
use sdesign::history::History;
use sdesign::hit_test::Coverage;
use sdesign::marks::Ink;
use sdesign::model::{
    BoolOp, ColorAdjust, CornerRadii, Frame, IdSource, Layer, LayerId, LayerKind, PathPoint,
    PathPolygon, PointType,
};
use sdesign::panel_actions::{InspectorAction, LayerAction, PagesAction, PaletteAction};
use sdesign::placement::Tool;
use sdesign::press::{Modifiers, Press};
use sdesign::scalar::Scalar;
use sdesign::shortcuts::{Command, Key, Keyboard, Request, Typed};
use sdesign::style::Paint;
use sdesign::text::{RunStyle, TextBlock, TextFont, TextRun};
use sdesign::text_editing::{diff_chars, splice};

#[derive(Clone, Copy, Debug, PartialEq)]
struct R(f32);

impl Scalar for R {
    fn ratio(num: i32, den: i32) -> Self {
        R(num as f32 / den as f32)
    }
    fn of_count(n: u64) -> Self {
        R(n as f32)
    }
    fn of_int(n: i64) -> Self {
        R(n as f32)
    }
    fn plus(self, other: Self) -> Self {
        R(self.0 + other.0)
    }
    fn minus(self, other: Self) -> Self {
        R(self.0 - other.0)
    }
    fn times(self, other: Self) -> Self {
        R(self.0 * other.0)
    }
    fn over(self, other: Self) -> Self {
        R(self.0 / other.0)
    }
    fn negated(self) -> Self {
        R(-self.0)
    }
    fn magnitude(self) -> Self {
        R(self.0.abs())
    }
    fn lesser(self, other: Self) -> Self {
        R(self.0.min(other.0))
    }
    fn greater(self, other: Self) -> Self {
        R(self.0.max(other.0))
    }
    fn is_lt(self, other: Self) -> bool {
        self.0 < other.0
    }
    fn is_le(self, other: Self) -> bool {
        self.0 <= other.0
    }
    fn is_same(self, other: Self) -> bool {
        self.0 == other.0
    }
    fn rounded(self) -> Self {
        R(self.0.round())
    }
    fn floored(self) -> Self {
        R(self.0.floor())
    }
    fn ceiled(self) -> Self {
        R(self.0.ceil())
    }
    fn decade(self) -> Self {
        R(10f32.powf(self.0.log10().floor()))
    }
    fn root(self) -> Self {
        R(self.0.sqrt())
    }
    fn hypot(self, other: Self) -> Self {
        R(self.0.hypot(other.0))
    }
    fn sin_deg(self) -> Self {
        R(self.0.to_radians().sin())
    }
    fn cos_deg(self) -> Self {
        R(self.0.to_radians().cos())
    }
    fn atan2(self, x: Self) -> Self {
        R(self.0.atan2(x.0))
    }
    fn to_degrees(self) -> Self {
        R(self.0.to_degrees())
    }
    fn is_finite(self) -> bool {
        self.0.is_finite()
    }
    fn to_i64(self) -> i64 {
        self.0 as i64
    }
}

fn p(x: f32, y: f32) -> Pos2<R> {
    Pos2::new(R(x), R(y))
}

fn v(x: f32, y: f32) -> Vec2<R> {
    Vec2::new(R(x), R(y))
}

fn rect_layer(id: LayerId, name: &str, x: f32, y: f32, w: f32, h: f32) -> Layer<R> {
    Layer::new(
        id,
        name,
        Frame { pos: p(x, y), size: v(w, h), rotation: R(0.0) },
        LayerKind::Rectangle { corner_radius: CornerRadii::uniform(R(0.0)) },
    )
}

fn app_with(layers: Vec<Layer<R>>, selection: Vec<LayerId>) -> App<R> {
    let mut app = App::new();
    let mut document = Document::new();
    document.active_page_mut().layers = layers;
    app.open(document);
    app.selection = selection;
    app.source = IdSource::starting_at(100);
    app
}

fn three() -> Vec<Layer<R>> {
    vec![
        rect_layer(1, "Rectangle 1", 0.0, 0.0, 10.0, 10.0),
        rect_layer(2, "B", 50.0, 20.0, 10.0, 10.0),
        rect_layer(3, "C", 90.0, 60.0, 10.0, 10.0),
    ]
}

fn ids(app: &App<R>) -> Vec<LayerId> {
    app.history.get().active_page().all_layer_ids()
}

fn at(app: &App<R>, id: LayerId) -> Pos2<R> {
    app.history.get().active_page().find(id).unwrap().frame.pos
}

#[test]
fn every_command_is_undone_at_once() {
    let commands: Vec<fn(&mut App<R>)> = vec![
        |a| a.group_selection(),
        |a| a.nudge_selection(v(1.0, 2.0)),
        |a| a.resize_selection_nudge(v(1.0, 2.0)),
        |a| a.toggle_mask_selection(),
        |a| a.align_selection(AlignEdge::Left, false),
        |a| a.tidy_selection(R(4.0)),
        |a| a.duplicate_selection(),
        |a| a.duplicate_selection_placed(true),
        |a| a.delete_selection(),
        |a| a.boolean_op_selection(BoolOp::Union),
        |a| a.apply_palette_color(Color32::from_rgb(1, 2, 3)),
        |a| a.insert_artboard_preset(v(300.0, 200.0)),
    ];
    for command in commands {
        let mut app = app_with(three(), vec![1, 2, 3]);
        let before = app.history.get().duplicate();
        command(&mut app);
        assert_ne!(*app.history.get(), before);
        app.undo();
        assert_eq!(*app.history.get(), before);
        app.redo();
        assert_ne!(*app.history.get(), before);
    }
}

#[test]
fn grouping_selects_the_group_and_ungrouping_its_members() {
    let mut app = app_with(three(), vec![1, 2]);
    app.group_selection();
    assert_eq!(app.selection, vec![100]);
    assert_eq!(ids(&app), vec![100, 1, 2, 3]);
    app.ungroup_selection();
    assert_eq!(app.selection, vec![1, 2]);
    assert_eq!(ids(&app), vec![1, 2, 3]);
    assert_eq!(at(&app, 2), p(50.0, 20.0));
}

#[test]
fn duplicates_are_selected_and_originals_stay() {
    let mut app = app_with(three(), vec![1]);
    app.duplicate_selection();
    assert_eq!(app.selection, vec![100]);
    assert_eq!(at(&app, 1), p(0.0, 0.0));
    let copy = app.history.get().active_page().find(100).unwrap();
    assert_eq!(copy.name, "Rectangle 2");
    assert_eq!(copy.frame.pos, p(0.0, 0.0).plus(app.canvas.duplicate_offset));
}

#[test]
fn deleting_selected_layers_clears_the_selection() {
    let mut app = app_with(three(), vec![1, 3]);
    app.delete_selection();
    assert_eq!(ids(&app), vec![2]);
    assert!(app.selection.is_empty());
}

fn named(r: u8, g: u8, b: u8, name: &str) -> Swatch {
    Swatch { color: Color32::from_rgb(r, g, b), name: name.to_string() }
}

#[test]
fn the_palette_collects_each_fill_once() {
    let mut app = app_with(three(), vec![1]);
    app.apply_palette_color(Color32::from_rgb(1, 2, 3));
    let n = app.history.get().palette.len();
    app.add_color_from_selection();
    assert_eq!(app.history.get().palette.len(), n + 1);
    app.remove_palette_color(n);
    assert_eq!(app.history.get().palette.len(), n);
    app.replace_palette(vec![named(9, 9, 9, "Ink")]);
    assert_eq!(app.history.get().palette, vec![named(9, 9, 9, "Ink")]);
}

#[test]
fn palette_actions_are_one_step_each() {
    let mut app = app_with(three(), vec![1, 2]);
    app.apply_palette_action(PaletteAction::Import(vec![named(1, 1, 1, "Coal")]));
    app.apply_palette_action(PaletteAction::Apply(Color32::from_rgb(7, 8, 9)));
    app.apply_palette_action(PaletteAction::AddFromSelection);
    assert_eq!(app.history.get().palette, vec![named(1, 1, 1, "Coal"), named(7, 8, 9, "")]);
    app.apply_palette_action(PaletteAction::Remove(0));
    assert_eq!(app.history.get().palette, vec![named(7, 8, 9, "")]);
    app.undo();
    app.undo();
    assert_eq!(app.history.get().palette, vec![named(1, 1, 1, "Coal")]);
    app.apply_palette_action(PaletteAction::Export);
    assert_eq!(app.history.get().palette, vec![named(1, 1, 1, "Coal")]);
    app.apply_palette_action(PaletteAction::ResetToDefault);
    assert_eq!(app.history.get().palette, Document::<R>::new().palette);
}

#[test]
fn turned_copies_need_layers_and_a_count() {
    let mut app = app_with(three(), vec![1]);
    app.rotate_copies_selection(0, Vec::new(), Vec::new());
    assert!(!app.history.can_undo());
    app.rotate_copies_selection(2, three(), Vec::new());
    assert!(app.history.can_undo());
    assert_eq!(app.selection, vec![1]);
    let mut more = three();
    more.push(rect_layer(4, "D", 0.0, 0.0, 1.0, 1.0));
    app.rotate_copies_selection(2, more, vec![2, 3]);
    assert_eq!(ids(&app), vec![1, 2, 3, 4]);
    assert_eq!(app.selection, vec![2, 3]);
    app.selection.push(99);
    let items = app.selected_items();
    assert_eq!(items.iter().map(|l| l.id).collect::<Vec<_>>(), vec![2, 3]);
    assert!(!app.renames_whole_page(false) && app.renames_whole_page(true));
}

#[test]
fn grids_select_the_layer_and_its_copies() {
    let mut app = app_with(three(), vec![1]);
    app.make_grid_selection(2, 2, R(5.0), R(5.0));
    assert_eq!(app.selection, vec![1, 100, 101, 102]);
    assert_eq!(at(&app, 102), p(15.0, 15.0));
    app.make_grid_selection(2, 2, R(5.0), R(5.0));
    assert_eq!(app.selection.len(), 4);
}

#[test]
fn text_becomes_the_outlines_that_are_given() {
    let layer = Layer::new(
        1,
        "Text",
        Frame { pos: p(0.0, 0.0), size: v(50.0, 20.0), rotation: R(0.0) },
        LayerKind::Text { text: TextBlock::plain("A".to_string(), R(10.0)) },
    );
    let mut app = app_with(vec![layer], vec![1]);
    assert!(app.selection_is_single_text());
    assert_eq!(app.lone_text(), Some(1));
    let ring = vec![p(0.0, 0.0), p(4.0, 0.0), p(0.0, 4.0)];
    app.convert_selection_to_outlines(vec![PathPolygon { exterior: ring, holes: Vec::new() }]);
    assert!(matches!(app.lone_layer().unwrap().kind, LayerKind::CompoundPath { .. }));
    assert!(!app.selection_is_single_text());
    app.undo();
    assert!(app.selection_is_single_text());
}

#[test]
fn siblings_are_selected_with_the_layer() {
    let mut app = app_with(three(), vec![2]);
    app.select_siblings();
    assert_eq!(app.selection, vec![1, 2, 3]);
}

#[test]
fn renames_go_to_the_layers_that_they_name() {
    let mut app = app_with(three(), vec![]);
    app.apply_renames(&vec![(2, "Two".to_string()), (99, "Nobody".to_string())]);
    let page = app.history.get().active_page();
    assert_eq!(page.find(2).unwrap().name, "Two");
    assert_eq!(page.find(1).unwrap().name, "Rectangle 1");
}

#[test]
fn pages_are_added_shown_and_deleted() {
    let mut app = app_with(three(), vec![1]);
    app.apply_pages_action(PagesAction::Add);
    assert_eq!(app.history.get().pages.len(), 2);
    assert_eq!(app.history.get().active_page, 1);
    app.apply_pages_action(PagesAction::Rename(1, "Second".to_string()));
    assert_eq!(app.history.get().pages[1].name, "Second");
    app.apply_pages_action(PagesAction::Select(0));
    assert_eq!(app.history.get().active_page, 0);
    app.apply_pages_action(PagesAction::Delete(1));
    app.apply_pages_action(PagesAction::Delete(0));
    assert_eq!(app.history.get().pages.len(), 1);
}

#[test]
fn layer_actions_change_the_layer_that_they_name() {
    let mut app = app_with(three(), vec![]);
    app.apply_layer_action(LayerAction::ToggleVisible(1));
    app.apply_layer_action(LayerAction::ToggleLocked(2));
    app.apply_layer_action(LayerAction::Rename(3, "Three".to_string()));
    app.apply_layer_action(LayerAction::SetChildBoolOp(3, BoolOp::Subtract));
    app.apply_layer_action(LayerAction::Move { id: 1, new_parent: None, index: 3 });
    let page = app.history.get().active_page();
    assert!(!page.find(1).unwrap().visible);
    assert!(page.find(2).unwrap().locked);
    assert_eq!(page.find(3).unwrap().name, "Three");
    assert_eq!(page.find(3).unwrap().bool_op, BoolOp::Subtract);
    assert_eq!(page.all_layer_ids(), vec![2, 3, 1]);
    app.apply_layer_action(LayerAction::Close);
    assert!(!app.panels.layers);
}

#[test]
fn inspector_actions_are_the_commands() {
    let mut app = app_with(three(), vec![1, 2]);
    app.apply_inspector_action(InspectorAction::Align(AlignEdge::Top, false));
    assert_eq!(at(&app, 2), p(50.0, 0.0));
    app.apply_inspector_action(InspectorAction::Group);
    assert_eq!(app.selection, vec![100]);
    app.apply_inspector_action(InspectorAction::Close);
    assert!(!app.panels.inspector);
}

#[test]
fn layer_actions_that_need_the_clipboard_change_nothing() {
    let mut app = app_with(three(), vec![2]);
    let asked = |app: &mut App<R>, action| app.apply_layer_action(action);
    assert_eq!(asked(&mut app, LayerAction::Copy(3)), Some(Request::CopyOne(3)));
    assert_eq!(asked(&mut app, LayerAction::Paste), Some(Request::Paste { over: false }));
    assert_eq!(asked(&mut app, LayerAction::PasteOver), Some(Request::Paste { over: true }));
    app.begin_layer_actions(&vec![LayerAction::Copy(3), LayerAction::Paste, LayerAction::PasteOver]);
    assert!(!app.history.can_undo());
    assert_eq!(app.selection, vec![2]);
    app.begin_layer_actions(&vec![LayerAction::Paste, LayerAction::ToggleVisible(1)]);
    assert!(app.history.can_undo());
    assert_eq!(asked(&mut app, LayerAction::ToggleVisible(1)), None);
}

#[test]
fn flipping_and_flattening_are_asked_for_and_done_in_one_step() {
    let mut app = app_with(three(), vec![1]);
    let flip = app.apply_inspector_action(InspectorAction::Flip { horizontal: true });
    assert_eq!(flip, Some(Request::Flip { horizontal: true }));
    let flatten = app.apply_inspector_action(InspectorAction::Flatten);
    assert_eq!(flatten, Some(Request::Flatten));
    assert!(!app.history.can_undo());
    let changed = || vec![rect_layer(1, "F", 5.0, 5.0, 10.0, 10.0)];
    app.flip_selection(changed());
    assert_eq!(ids(&app), vec![1]);
    app.undo();
    assert_eq!(ids(&app), vec![1, 2, 3]);
    app.flatten_selection(changed());
    assert_eq!(at(&app, 1), p(5.0, 5.0));
    app.undo();
    app.selection.clear();
    app.flip_selection(changed());
    app.flatten_selection(changed());
    assert_eq!(ids(&app), vec![1, 2, 3]);
}

#[test]
fn layers_are_found_on_every_page() {
    let mut app = image_app();
    let path = Layer::new(
        8,
        "Path",
        Frame { pos: p(0.0, 0.0), size: v(10.0, 10.0), rotation: R(0.0) },
        LayerKind::Path {
            points: vec![PathPoint {
                anchor: p(0.0, 0.0),
                handle_in: None,
                handle_out: None,
                point_type: PointType::Straight,
                corner_radius: R(3.0),
            }],
            closed: false,
        },
    );
    app.history.mutate().active_page_mut().layers.push(path);
    app.canvas.image_edit = None;
    app.apply_pages_action(PagesAction::Add);
    assert_eq!(app.history.get().active_page, 1);
    app.canvas.begin_image_edit(&app.history, 1);
    assert!(app.canvas.image_edit.is_some());
    app.canvas.selected_points = vec![0];
    assert_eq!(app.canvas.selected_point_corner_radius(&app.history, 8), Some(R(3.0)));
    assert_eq!(app.canvas.selected_point_corner_radius(&app.history, 9), None);
}

#[test]
fn guides_are_cleared_in_one_step() {
    let mut app = app_with(three(), vec![]);
    app.history
        .mutate()
        .active_page_mut()
        .guides
        .push(Guide { orientation: GuideOrientation::Vertical, pos: R(4.0) });
    app.clear_guides();
    assert!(app.history.get().active_page().guides.is_empty());
    app.undo();
    assert_eq!(app.history.get().active_page().guides.len(), 1);
}

fn keyboard(pressed: Vec<Key>, command: bool, shift: bool) -> Keyboard {
    let typed = pressed
        .iter()
        .map(|&key| Typed { key, command, ctrl: false, shift })
        .collect();
    Keyboard { focused: false, shift, command, alt: false, pressed, typed }
}

#[test]
fn keys_ask_for_commands() {
    assert_eq!(keyboard(vec![Key::Z], true, false).handle_shortcuts(), vec![Command::Undo]);
    assert_eq!(keyboard(vec![Key::Z], true, true).handle_shortcuts(), vec![Command::Redo]);
    assert_eq!(keyboard(vec![Key::G], true, false).handle_shortcuts(), vec![Command::Group]);
    assert_eq!(
        keyboard(vec![Key::S], true, true).handle_shortcuts(),
        vec![Command::Save { as_new: true }]
    );
    assert_eq!(
        keyboard(vec![Key::D], true, true).handle_shortcuts(),
        vec![Command::Duplicate { below: true }]
    );
    assert_eq!(
        keyboard(vec![Key::Right], false, true).handle_shortcuts(),
        vec![Command::Nudge { dx: 10, dy: 0, resize: false }]
    );
    assert_eq!(keyboard(vec![Key::Delete], false, false).handle_shortcuts(), vec![Command::Delete]);
}

#[test]
fn typing_into_a_field_leaves_the_layers_alone() {
    let mut keys = keyboard(vec![Key::Delete, Key::Right, Key::Escape], false, false);
    keys.focused = true;
    assert_eq!(keys.handle_shortcuts(), Vec::<Command>::new());
    let mut app = app_with(three(), vec![1]);
    app.pick_tool(&keyboard(vec![Key::R], false, false));
    assert_eq!(app.tool, Tool::Rectangle);
}

#[test]
fn commands_run_or_ask_for_what_is_outside() {
    let mut app = app_with(three(), vec![1]);
    app.run_command(Command::Nudge { dx: 1, dy: 0, resize: false });
    assert_eq!(at(&app, 1), p(1.0, 0.0));
    assert_eq!(
        app.request_of(Command::Save { as_new: false }),
        Some(Request::Save { as_new: false })
    );
    assert_eq!(app.request_of(Command::Undo), None);
    assert_eq!(app.request_of(Command::Rename), Some(Request::RenameOne(1)));
    app.run_command(Command::Delete);
    assert_eq!(ids(&app), vec![2, 3]);
}

#[test]
fn copy_and_paste_round_trip_then_ignore_plain_os_text() {
    let text = frame_text("[\"Rectangle 1\"]");
    assert!(text.starts_with(SENTINEL));
    assert_eq!(strip_text(&text), Some("[\"Rectangle 1\"]".to_string()));

    let original = rect_layer(7, "Rectangle 1", 1.0, 2.0, 10.0, 10.0);
    let mut source = IdSource::starting_at(100);
    let pasted = paste_layers(vec![original], &mut source);
    assert_eq!(pasted.len(), 1);
    assert_eq!(pasted[0].name, "Rectangle 1");
    assert_eq!(pasted[0].frame.pos, p(1.0, 2.0));
    assert_ne!(pasted[0].id, 7, "paste must regenerate ids");

    assert_eq!(strip_text("just some ordinary clipboard text"), None);
    assert_eq!(strip_text(""), None);
}

#[test]
fn pasting_over_keeps_the_place_and_pasting_moves_it() {
    let mut app = app_with(three(), vec![2]);
    let copies = paste_layers(app.copy_selection(), &mut app.source);
    app.paste_selection(copies, true);
    assert_eq!(at(&app, app.selection[0]), p(50.0, 20.0));
    app.undo();
    app.selection = vec![2];
    let copies = paste_layers(app.copy_selection(), &mut app.source);
    app.paste_selection(copies, false);
    assert_eq!(at(&app, app.selection[0]), p(50.0, 20.0).plus(app.canvas.duplicate_offset));
}

#[test]
fn turning_a_band_over_twice_restores_the_selection() {
    assert_eq!(join_ids(&vec![1, 2], &vec![2, 3]), vec![1, 2, 3]);
    assert_eq!(turn_over(&vec![1, 2], &vec![2, 3]), vec![1, 3]);
    assert_eq!(turn_over(&vec![1, 3], &vec![3]), vec![1]);
}

fn press_at(x: f32, y: f32) -> Press<R> {
    Press {
        mouse: p(x, y),
        origin: p(0.0, 0.0),
        canvas_rect: Rect::from_min_size(p(0.0, 0.0), v(800.0, 600.0)),
        modifiers: Modifiers { shift: false, alt: false, command: false },
    }
}

fn release_at(x: f32, y: f32) -> Release<R> {
    Release {
        mouse: Some(p(x, y)),
        origin: p(0.0, 0.0),
        canvas_rect: Rect::from_min_size(p(0.0, 0.0), v(800.0, 600.0)),
    }
}

fn nothing_covered() -> Coverage {
    Coverage { solid: Vec::new(), revealing: Vec::new() }
}

#[test]
fn dragging_a_rectangle_draws_one_and_selects_it() {
    let mut app = app_with(Vec::new(), vec![]);
    app.canvas.snap_enabled = false;
    app.canvas.show_rulers = false;
    app.tool = Tool::Rectangle;
    app.canvas.drag_started(
        press_at(100.0, 100.0),
        &mut app.history,
        &mut app.tool,
        &mut app.selection,
        &nothing_covered(),
        &mut app.source,
    );
    app.canvas.dragged(press_at(180.0, 140.0), &mut app.history, app.tool);
    app.canvas.drag_stopped(
        release_at(180.0, 140.0),
        &None,
        &mut app.history,
        &mut app.tool,
        &mut app.selection,
        &mut app.source,
    );
    assert!(matches!(app.canvas.drag, DragState::Idle));
    assert_eq!(app.selection.len(), 1);
    let layer = app.history.get().active_page().find(app.selection[0]).unwrap();
    assert_eq!(layer.frame.size, v(80.0, 40.0));
    assert_eq!(app.tool, Tool::Select);
}

#[test]
fn dragging_a_selected_layer_moves_it() {
    let mut app = app_with(vec![rect_layer(1, "A", 100.0, 100.0, 50.0, 50.0)], vec![1]);
    app.canvas.snap_enabled = false;
    app.canvas.show_rulers = false;
    app.tool = Tool::Select;
    app.canvas.drag_started(
        press_at(120.0, 125.0),
        &mut app.history,
        &mut app.tool,
        &mut app.selection,
        &nothing_covered(),
        &mut app.source,
    );
    app.canvas.dragged(press_at(150.0, 135.0), &mut app.history, app.tool);
    app.canvas.drag_stopped(
        release_at(150.0, 135.0),
        &None,
        &mut app.history,
        &mut app.tool,
        &mut app.selection,
        &mut app.source,
    );
    assert_eq!(at(&app, 1), p(130.0, 110.0));
    app.undo();
    assert_eq!(at(&app, 1), p(100.0, 100.0));
}

#[test]
fn clicking_beside_every_layer_selects_nothing() {
    let mut app = app_with(three(), vec![1]);
    let page_hover = app.canvas.hover(
        app.history.page(),
        Tool::Select,
        &app.selection,
        p(0.0, 0.0),
        Some(p(400.0, 400.0)),
    );
    for click in [Click::Double, Click::Single] {
        assert!(!app.selection.is_empty());
        app.canvas.click_select(
            p(400.0, 400.0),
            &app.history,
            Tool::Select,
            &mut app.selection,
            &page_hover,
            click,
            false,
            &nothing_covered(),
        );
    }
    assert!(app.selection.is_empty());
}

#[test]
fn the_pen_draws_a_path_point_by_point() {
    let mut app = app_with(Vec::new(), vec![]);
    app.tool = Tool::Pen;
    for (x, y) in [(0.0, 0.0), (40.0, 0.0), (40.0, 40.0)] {
        app.canvas.pen_click(
            Click::Single,
            p(x, y),
            p(0.0, 0.0),
            &mut app.history,
            &mut app.tool,
            &mut app.selection,
            &mut app.source,
        );
    }
    app.canvas.pen_keys(
        true,
        false,
        &mut app.history,
        &mut app.tool,
        &mut app.selection,
        &mut app.source,
    );
    assert_eq!(app.selection.len(), 1);
    let layer = app.history.get().active_page().find(app.selection[0]).unwrap();
    let LayerKind::Path { points, closed } = &layer.kind else { panic!("expected Path") };
    assert_eq!(points.len(), 3);
    assert!(!closed);
    assert_eq!(layer.frame.size, v(40.0, 40.0));
}

#[test]
fn the_wheel_zooms_and_pans() {
    let mut canvas = CanvasWidget::<R>::new();
    let (pan, zoom) = (canvas.pan, canvas.zoom);
    canvas.wheel(v(5.0, -3.0), R(1.0));
    assert_eq!(canvas.pan, pan.plus(v(5.0, -3.0)));
    assert_eq!(canvas.zoom, zoom);
    canvas.wheel(v(0.0, 0.0), R(2.0));
    assert_eq!(canvas.zoom, zoom.times(R(2.0)));
}

fn plain_style() -> RunStyle<R> {
    RunStyle {
        font: TextFont::Proportional,
        font_size: R(10.0),
        color: None,
        bold: false,
        italic: false,
        underline: false,
        strikethrough: false,
    }
}

#[test]
fn runs_follow_the_text_as_it_is_typed() {
    assert_eq!(diff_chars("hello", "help!"), (3, 2, 2));
    assert_eq!(diff_chars("abc", "abc"), (3, 0, 0));
    assert_eq!(diff_chars("", "xy"), (0, 0, 2));

    let run = |len: usize| TextRun { len, style: plain_style() };
    let lens = |runs: Vec<TextRun<R>>| runs.iter().map(|r| r.len).collect::<Vec<_>>();
    // Typing at the border belongs to the run before it.
    assert_eq!(lens(splice(vec![run(2), run(3)], 2, 0, 4, &plain_style())), vec![6, 3]);
    assert_eq!(lens(splice(vec![run(2), run(3)], 0, 0, 1, &plain_style())), vec![3, 3]);
    // Removing across a border shortens both runs, and drops one that is empty.
    assert_eq!(lens(splice(vec![run(2), run(3)], 1, 2, 0, &plain_style())), vec![1, 2]);
    assert_eq!(lens(splice(vec![run(2), run(3)], 0, 2, 0, &plain_style())), vec![3]);
    // Behind all runs a new one begins.
    assert_eq!(lens(splice(vec![run(2)], 5, 0, 3, &plain_style())), vec![2, 3]);
}

#[test]
fn a_text_that_is_edited_keeps_its_runs_in_step() {
    let mut text = TextBlock::plain("abcd".to_string(), R(10.0));
    text.runs =
        vec![TextRun { len: 2, style: plain_style() }, TextRun { len: 2, style: plain_style() }];
    let layer = Layer::new(
        1,
        "Text",
        Frame { pos: p(0.0, 0.0), size: v(50.0, 20.0), rotation: R(0.0) },
        LayerKind::Text { text },
    );
    let mut app = app_with(vec![layer], vec![1]);
    app.canvas.start_editing_text(&mut app.history, 1);
    assert!(app.canvas.is_editing_text(1));
    assert!(app.canvas.take_text_focus());
    assert!(!app.canvas.take_text_focus());
    app.canvas.text_changed(&mut app.history, "abXXcd".to_string());
    let LayerKind::Text { text } = &app.history.get().active_page().find(1).unwrap().kind else {
        panic!("expected Text")
    };
    assert_eq!(text.content, "abXXcd");
    assert_eq!(text.runs.iter().map(|r| r.len).collect::<Vec<_>>(), vec![4, 2]);
    app.canvas.end_text_editing(false, true);
    assert!(!app.canvas.is_editing_text(1));
}

#[test]
fn edits_reach_every_named_layer_and_no_other() {
    let mut history = History::new(Document::<R>::new());
    history.mutate().active_page_mut().layers = three();
    let page = history.page_mut();
    edit_each(page, &vec![1, 3], &LayerEdit::Fill(Color32::from_rgb(5, 6, 7)));
    assert_eq!(page.find(1).unwrap().style.fill, Some(Paint::Solid(Color32::from_rgb(5, 6, 7))));
    assert_ne!(page.find(2).unwrap().style.fill, Some(Paint::Solid(Color32::from_rgb(5, 6, 7))));
    edit_each(page, &vec![2], &LayerEdit::ToggleVisible);
    assert!(!page.find(2).unwrap().visible);
    edit_each(page, &vec![2], &LayerEdit::ToggleVisible);
    assert!(page.find(2).unwrap().visible);
    remove_one(page, 2);
    assert_eq!(page.all_layer_ids(), vec![1, 3]);
}

#[test]
fn marks_are_inked_in_the_colours_of_the_canvas() {
    let blue = egui::Color32::from_rgb(0, 122, 255);
    for (ink, c) in [
        (Ink::Selection, blue),
        (Ink::SelectionDim, blue.gamma_multiply(0.6)),
        (Ink::SelectionWash, blue.gamma_multiply(0.15)),
        (Ink::Grid, egui::Color32::from_black_alpha(40)),
        (Ink::RulerBack, egui::Color32::from_gray(246)),
        (Ink::DraftFill, egui::Color32::from_rgba_unmultiplied(216, 216, 216, 160)),
        (Ink::DraftOval, egui::Color32::from_rgba_unmultiplied(180, 180, 180, 160)),
    ] {
        let k = ink.color();
        assert_eq!((k.r, k.g, k.b, k.a), (c.r(), c.g(), c.b(), c.a()));
    }
}

#[test]
fn rulers_leave_less_of_the_canvas_to_the_page() {
    let mut app = app_with(three(), vec![]);
    let full = Rect { min: p(5.0, 6.0), max: p(100.0, 90.0) };
    app.canvas.show_rulers = false;
    assert_eq!(app.canvas.page_area(full), full);
    app.canvas.show_rulers = true;
    assert_eq!(app.canvas.page_area(full), Rect { min: p(25.0, 26.0), max: p(100.0, 90.0) });
}

fn image_app() -> App<R> {
    let layer = Layer::new(
        1,
        "Image",
        Frame { pos: p(10.0, 20.0), size: v(40.0, 40.0), rotation: R(0.0) },
        LayerKind::Image {
            encoded: vec![1, 2, 3],
            version: 7,
            color_adjust: ColorAdjust {
                hue: R(0.0),
                saturation: R(0.0),
                brightness: R(0.0),
                contrast: R(0.0),
            },
            width: 4,
            height: 4,
        },
    );
    let mut app = app_with(vec![layer], vec![1]);
    app.canvas.pan = v(0.0, 0.0);
    app.canvas.zoom = R(1.0);
    app.canvas.begin_image_edit(&app.history, 1);
    app
}

fn image_drag(app: &mut App<R>, from: (f32, f32), to: (f32, f32), modifiers: Modifiers) {
    app.canvas.drag_started(
        Press { modifiers, ..press_at(from.0, from.1) },
        &mut app.history,
        &mut app.tool,
        &mut app.selection,
        &nothing_covered(),
        &mut app.source,
    );
    let release = release_at(to.0, to.1);
    let wand = app.canvas.wand_seed(release, &app.history).map(|(x, y)| {
        let mut mask = vec![false; 16];
        mask[(y * 4 + x) as usize] = true;
        mask
    });
    app.canvas.drag_stopped(
        release,
        &wand,
        &mut app.history,
        &mut app.tool,
        &mut app.selection,
        &mut app.source,
    );
}

fn mask_of(app: &App<R>) -> Vec<usize> {
    let mask = &app.canvas.image_edit.as_ref().unwrap().mask;
    (0..mask.len()).filter(|i| mask[*i]).collect()
}

#[test]
fn pixels_are_selected_by_drags_and_clicks() {
    let plain = Modifiers { shift: false, alt: false, command: false };
    let mut app = image_app();
    image_drag(&mut app, (20.0, 30.0), (40.0, 40.0), plain);
    assert_eq!(mask_of(&app), vec![5, 6]);
    image_drag(&mut app, (12.0, 22.0), (12.5, 22.0), Modifiers { shift: true, ..plain });
    assert_eq!(mask_of(&app), vec![0, 5, 6]);
    image_drag(&mut app, (30.0, 20.0), (50.0, 60.0), Modifiers { alt: true, ..plain });
    assert_eq!(mask_of(&app), vec![0, 5]);
    image_drag(&mut app, (12.0, 22.0), (12.5, 22.0), plain);
    assert_eq!(mask_of(&app), vec![0]);
    image_drag(&mut app, (100.0, 100.0), (200.0, 200.0), plain);
    assert!(mask_of(&app).is_empty());
}

#[test]
fn the_picture_of_selected_pixels_is_made_when_it_is_out_of_date() {
    let plain = Modifiers { shift: false, alt: false, command: false };
    let mut app = image_app();
    let area = app.canvas.image_edit_area(app.history.get().active_page(), p(0.0, 0.0));
    assert_eq!(area, Some(Rect { min: p(10.0, 20.0), max: p(50.0, 60.0) }));
    assert!(app.canvas.refresh_overlay(true).is_none());
    image_drag(&mut app, (20.0, 30.0), (40.0, 40.0), plain);
    let pixels = app.canvas.refresh_overlay(true).unwrap();
    let blue = egui::Color32::from_rgba_unmultiplied(0, 90, 158, 120);
    assert_eq!(pixels.len(), 16);
    assert_eq!(pixels[5], Color32::from_rgba_premultiplied(blue.r(), blue.g(), blue.b(), blue.a()));
    assert_eq!(pixels[4], Color32::transparent());
    assert!(app.canvas.refresh_overlay(true).is_none());
    assert!(app.canvas.refresh_overlay(false).is_some());
    app.canvas.end_image_edit();
    assert!(app.canvas.refresh_overlay(false).is_none());
}

#[test]
fn painted_and_cut_images_take_their_new_bytes() {
    let plain = Modifiers { shift: false, alt: false, command: false };
    let mut app = image_app();
    app.canvas.apply_image_edit_fill(&mut app.history, Some(vec![9]), &mut app.source);
    assert!(!app.history.can_undo());
    image_drag(&mut app, (20.0, 30.0), (40.0, 40.0), plain);
    app.canvas.apply_image_edit_fill(&mut app.history, Some(vec![9]), &mut app.source);
    assert!(mask_of(&app).is_empty());
    image_drag(&mut app, (20.0, 30.0), (40.0, 40.0), plain);
    assert_eq!(app.canvas.image_edit_crop_box(), Some((1, 1, 2, 1)));
    app.canvas.apply_image_edit_crop(&mut app.history, Some(vec![8]), &mut app.source);
    assert!(app.canvas.image_edit.is_none());
    let layer = app.history.get().active_page().find(1).unwrap();
    assert_eq!(layer.frame.pos, p(20.0, 30.0));
    assert_eq!(layer.frame.size, v(20.0, 10.0));
    assert!(matches!(&layer.kind, LayerKind::Image { encoded, width: 2, height: 1, .. }
        if *encoded == vec![8]));
    app.undo();
    app.undo();
    let layer = app.history.get().active_page().find(1).unwrap();
    assert!(matches!(&layer.kind, LayerKind::Image { version: 7, .. }));
}

#[test]
fn a_text_on_another_page_is_selected_but_not_outlined() {
    let layer = Layer::new(
        1,
        "Text",
        Frame { pos: p(0.0, 0.0), size: v(50.0, 20.0), rotation: R(0.0) },
        LayerKind::Text { text: TextBlock::plain("A".to_string(), R(10.0)) },
    );
    let mut app = app_with(vec![layer], vec![]);
    app.apply_pages_action(PagesAction::Add);
    app.selection = vec![1];
    let before = app.history.get().duplicate();
    assert!(app.selection_is_single_text());
    assert_eq!(app.lone_text(), None);
    app.convert_selection_to_outlines(Vec::new());
    assert_eq!(*app.history.get(), before);
}

#[test]
fn texts_wait_a_few_times_for_their_font() {
    let mut app = app_with(three(), vec![]);
    app.canvas.queue_font_resize_retry(7, "Some Family".to_string());
    app.canvas.queue_font_resize_retry(8, "Other Family".to_string());
    assert_eq!(app.canvas.retry_font_resizes(&vec![false, true]), vec![8]);
    for _ in 0..3 {
        assert!(app.canvas.retry_font_resizes(&vec![false]).is_empty());
        assert_eq!(app.canvas.pending_font_resize.len(), 1);
    }
    assert!(app.canvas.retry_font_resizes(&vec![false]).is_empty());
    assert!(app.canvas.pending_font_resize.is_empty());
}
