//! The canvas: what it shows, what is being dragged on it, and the edits it makes to the points of
//! a path.
use vstd::prelude::*;

use crate::alignment::DistributeAxis;
use crate::color::Color32;
use crate::document::{find_from, Guide, GuideOrientation};
use crate::geometry::{Pos2, Rect, Vec2};
use crate::history::{History, HistoryView};
use crate::model::{group_views, IdSource, KindView, LayerId, LayerKind, LayerView, PathPoint};
use crate::path_edit::{normalize_layer, normalized, ScreenPathView, Viewport};
use crate::placement::Tool;
use crate::scalar::Scalar;
use crate::style::copy_vec;
use crate::transform::{
    resize_infos, rotate_infos, Handle, ResizeInfoView, ResizeLayerInfo, RotateInfoView,
    RotateLayerInfo, ScaleAnchor,
};

verus! {

broadcast use group_views;

/// A part of a path's point that can be taken hold of.
#[derive(Clone, Copy, Debug, PartialEq, Eq, Structural)]
pub enum PathPart {
    Anchor,
    HandleIn,
    HandleOut,
}

/// One of the two handles of a path's point.
#[derive(Clone, Copy, Debug, PartialEq, Eq, Structural)]
pub enum HandleSide {
    In,
    Out,
}

/// What the pointer is dragging. Places named `start_doc` are on the page.
pub enum DragState<S> {
    /// Nothing.
    Idle,
    PanningView { start_mouse: Pos2<S>, start_pan: Vec2<S> },
    CreatingShape { start_doc: Pos2<S> },
    /// A rubber band for layers.
    Marquee {
        start_doc: Pos2<S>,
        /// Keep what was selected before.
        additive: bool,
        base_selection: Vec<LayerId>,
        /// Take only what is wholly inside.
        contained_only: bool,
        /// Take leaves in place of the containers around them.
        ignore_groups: bool,
        /// Turn each layer's selection over; goes before `additive`.
        invert: bool,
    },
    /// A rubber band for the points of one path.
    MarqueePoints {
        layer_id: LayerId,
        start_doc: Pos2<S>,
        additive: bool,
        base_points: Vec<usize>,
    },
    MovingSelection { start_doc: Pos2<S>, starts: Vec<(LayerId, Pos2<S>)> },
    /// One end of a line or an arrow.
    ResizingLine { id: LayerId, handle: Handle, parent_offset: Vec2<S> },
    ResizingGroup {
        handle: Handle,
        start_overall_bounds: Rect<S>,
        layers: Vec<ResizeLayerInfo<S>>,
        /// Scale strokes and corners too.
        scale_style: bool,
        scale_anchor: ScaleAnchor,
    },
    Rotating { pivot: Pos2<S>, start_angle: S, leaves: Vec<RotateLayerInfo<S>> },
    /// The gap after the layer `gap_index` of `order`.
    AdjustingDistributionGap {
        start_doc: Pos2<S>,
        axis: DistributeAxis,
        gap_index: usize,
        order: Vec<LayerId>,
        places: Vec<Pos2<S>>,
    },
    /// The handle of the point that the pen has just placed.
    DrawingPenHandle { point_index: usize },
    EditingPathAnchor {
        layer_id: LayerId,
        point_indices: Vec<usize>,
        start_doc: Pos2<S>,
        start_anchors: Vec<Pos2<S>>,
    },
    EditingPathHandle {
        layer_id: LayerId,
        parent_offset: Vec2<S>,
        point_index: usize,
        side: HandleSide,
    },
    CreatingGuide { orientation: GuideOrientation },
    MovingGuide { index: usize, orientation: GuideOrientation },
    /// A selection of pixels in the image that is edited.
    ImageEditDrag { start_doc: Pos2<S>, subtract: bool, base_mask: Vec<bool> },
}

/// [`DragState`] over sequences.
#[verifier::ext_equal]
pub enum DragView<S> {
    Idle,
    PanningView { start_mouse: Pos2<S>, start_pan: Vec2<S> },
    CreatingShape { start_doc: Pos2<S> },
    Marquee {
        start_doc: Pos2<S>,
        additive: bool,
        base_selection: Seq<LayerId>,
        contained_only: bool,
        ignore_groups: bool,
        invert: bool,
    },
    MarqueePoints {
        layer_id: LayerId,
        start_doc: Pos2<S>,
        additive: bool,
        base_points: Seq<usize>,
    },
    MovingSelection { start_doc: Pos2<S>, starts: Seq<(LayerId, Pos2<S>)> },
    ResizingLine { id: LayerId, handle: Handle, parent_offset: Vec2<S> },
    ResizingGroup {
        handle: Handle,
        start_overall_bounds: Rect<S>,
        layers: Seq<ResizeInfoView<S>>,
        scale_style: bool,
        scale_anchor: ScaleAnchor,
    },
    Rotating { pivot: Pos2<S>, start_angle: S, leaves: Seq<RotateInfoView<S>> },
    AdjustingDistributionGap {
        start_doc: Pos2<S>,
        axis: DistributeAxis,
        gap_index: usize,
        order: Seq<LayerId>,
        places: Seq<Pos2<S>>,
    },
    DrawingPenHandle { point_index: usize },
    EditingPathAnchor {
        layer_id: LayerId,
        point_indices: Seq<usize>,
        start_doc: Pos2<S>,
        start_anchors: Seq<Pos2<S>>,
    },
    EditingPathHandle {
        layer_id: LayerId,
        parent_offset: Vec2<S>,
        point_index: usize,
        side: HandleSide,
    },
    CreatingGuide { orientation: GuideOrientation },
    MovingGuide { index: usize, orientation: GuideOrientation },
    ImageEditDrag { start_doc: Pos2<S>, subtract: bool, base_mask: Seq<bool> },
}

impl<S: Scalar> DragState<S> {
    pub open spec fn view(&self) -> DragView<S> {
        match *self {
            DragState::Idle => DragView::Idle,
            DragState::PanningView { start_mouse, start_pan } => DragView::PanningView {
                start_mouse,
                start_pan,
            },
            DragState::CreatingShape { start_doc } => DragView::CreatingShape { start_doc },
            DragState::Marquee {
                start_doc,
                additive,
                base_selection,
                contained_only,
                ignore_groups,
                invert,
            } => DragView::Marquee {
                start_doc,
                additive,
                base_selection: base_selection@,
                contained_only,
                ignore_groups,
                invert,
            },
            DragState::MarqueePoints { layer_id, start_doc, additive, base_points } =>
                DragView::MarqueePoints { layer_id, start_doc, additive, base_points: base_points@ },
            DragState::MovingSelection { start_doc, starts } => DragView::MovingSelection {
                start_doc,
                starts: starts@,
            },
            DragState::ResizingLine { id, handle, parent_offset } => DragView::ResizingLine {
                id,
                handle,
                parent_offset,
            },
            DragState::ResizingGroup {
                handle,
                start_overall_bounds,
                layers,
                scale_style,
                scale_anchor,
            } => DragView::ResizingGroup {
                handle,
                start_overall_bounds,
                layers: resize_infos(layers@),
                scale_style,
                scale_anchor,
            },
            DragState::Rotating { pivot, start_angle, leaves } => DragView::Rotating {
                pivot,
                start_angle,
                leaves: rotate_infos(leaves@),
            },
            DragState::AdjustingDistributionGap { start_doc, axis, gap_index, order, places } =>
                DragView::AdjustingDistributionGap {
                start_doc,
                axis,
                gap_index,
                order: order@,
                places: places@,
            },
            DragState::DrawingPenHandle { point_index } => DragView::DrawingPenHandle {
                point_index,
            },
            DragState::EditingPathAnchor { layer_id, point_indices, start_doc, start_anchors } =>
                DragView::EditingPathAnchor {
                layer_id,
                point_indices: point_indices@,
                start_doc,
                start_anchors: start_anchors@,
            },
            DragState::EditingPathHandle { layer_id, parent_offset, point_index, side } =>
                DragView::EditingPathHandle { layer_id, parent_offset, point_index, side },
            DragState::CreatingGuide { orientation } => DragView::CreatingGuide { orientation },
            DragState::MovingGuide { index, orientation } => DragView::MovingGuide {
                index,
                orientation,
            },
            DragState::ImageEditDrag { start_doc, subtract, base_mask } => DragView::ImageEditDrag {
                start_doc,
                subtract,
                base_mask: base_mask@,
            },
        }
    }
}

/// A selection of pixels being made in one image.
pub struct ImageEditState<S> {
    pub layer_id: LayerId,
    /// How far a colour may be from that under the wand, in percent.
    pub tolerance: S,
    /// Row by row, one cell for each pixel.
    pub mask: Vec<bool>,
    pub width: u32,
    pub height: u32,
    pub fill_color: Color32,
    /// Whether the picture of the mask is out of date.
    pub overlay_stale: bool,
}

/// [`ImageEditState`] over sequences.
#[verifier::ext_equal]
pub struct ImageEditView<S> {
    pub layer_id: LayerId,
    pub tolerance: S,
    pub mask: Seq<bool>,
    pub width: u32,
    pub height: u32,
    pub fill_color: Color32,
    pub overlay_stale: bool,
}

impl<S: Scalar> ImageEditState<S> {
    pub open spec fn view(&self) -> ImageEditView<S> {
        ImageEditView {
            layer_id: self.layer_id,
            tolerance: self.tolerance,
            mask: self.mask@,
            width: self.width,
            height: self.height,
            fill_color: self.fill_color,
            overlay_stale: self.overlay_stale,
        }
    }

    /// The picture of the mask is to be made anew.
    pub fn mark_dirty(&mut self)
        ensures
            final(self)@ == (ImageEditView { overlay_stale: true, ..old(self)@ }),
    {
        self.overlay_stale = true;
    }

    /// Whether any pixel is selected.
    pub fn has_selection(&self) -> (r: bool)
        ensures
            r == !crate::image_edit::is_clear(self.mask@),
    {
        let mut i: usize = 0;
        while i < self.mask.len()
            invariant
                i <= self.mask.len(),
                forall|k: int| 0 <= k < i ==> !#[trigger] self.mask@[k],
            decreases self.mask.len() - i,
        {
            if self.mask[i] {
                return true;
            }
            i += 1;
        }
        false
    }
}

/// The state of the canvas.
pub struct CanvasWidget<S> {
    pub pan: Vec2<S>,
    pub zoom: S,
    pub show_rulers: bool,
    pub show_grid: bool,
    pub snap_enabled: bool,
    pub drag: DragState<S>,
    /// The points placed so far by the pen, on the page.
    pub pen: Option<Vec<PathPoint<S>>>,
    /// The selected points of the path `point_edit_layer`.
    pub selected_points: Vec<usize>,
    pub point_edit_layer: Option<LayerId>,
    pub image_edit: Option<ImageEditState<S>>,
    /// The text layer that is edited in place.
    pub editing_text: Option<LayerId>,
    /// Whether that editing has yet to take the focus.
    pub editing_text_just_started: bool,
    /// Text layers measured before their font was there, and how often to try again.
    pub pending_font_resize: Vec<(LayerId, String, u8)>,
    /// The characters selected in the text that is edited, start and end.
    pub text_edit_selection: Option<(usize, usize)>,
    pub duplicate_offset: Vec2<S>,
    /// Where the next new layer goes, once.
    pub insert_hint_parent: Option<LayerId>,
    /// The layer that others are aligned to.
    pub reference_layer: Option<LayerId>,
    pub tidy_spacing: S,
    /// What was last distributed, and how.
    pub last_distributed: Option<(Vec<LayerId>, DistributeAxis)>,
    pub aspect_locked: bool,
    /// The selection that scale mode started with, while it lasts.
    pub scaling: Option<Vec<LayerId>>,
    pub scale_anchor: ScaleAnchor,
    /// The menu of overlapping layers: where it is, and what it offers.
    pub overlap_menu: Option<(Pos2<S>, Vec<LayerId>)>,
    pub canvas_menu: Option<Pos2<S>>,
    pub point_type_menu: Option<(Pos2<S>, LayerId)>,
}

/// [`CanvasWidget`] over sequences.
#[verifier::ext_equal]
pub struct CanvasView<S> {
    pub pan: Vec2<S>,
    pub zoom: S,
    pub show_rulers: bool,
    pub show_grid: bool,
    pub snap_enabled: bool,
    pub drag: DragView<S>,
    pub pen: Option<Seq<PathPoint<S>>>,
    pub selected_points: Seq<usize>,
    pub point_edit_layer: Option<LayerId>,
    pub image_edit: Option<ImageEditView<S>>,
    pub editing_text: Option<LayerId>,
    pub editing_text_just_started: bool,
    pub pending_font_resize: Seq<(LayerId, Seq<char>, u8)>,
    pub text_edit_selection: Option<(usize, usize)>,
    pub duplicate_offset: Vec2<S>,
    pub insert_hint_parent: Option<LayerId>,
    pub reference_layer: Option<LayerId>,
    pub tidy_spacing: S,
    pub last_distributed: Option<(Seq<LayerId>, DistributeAxis)>,
    pub aspect_locked: bool,
    pub scaling: Option<Seq<LayerId>>,
    pub scale_anchor: ScaleAnchor,
    pub overlap_menu: Option<(Pos2<S>, Seq<LayerId>)>,
    pub canvas_menu: Option<Pos2<S>>,
    pub point_type_menu: Option<(Pos2<S>, LayerId)>,
}

/// The waiting font measurements over sequences.
pub open spec fn waiting_fonts(s: Seq<(LayerId, String, u8)>) -> Seq<(LayerId, Seq<char>, u8)> {
    Seq::new(s.len(), |i: int| (s[i].0, s[i].1@, s[i].2))
}

impl<S: Scalar> CanvasWidget<S> {
    pub open spec fn view(&self) -> CanvasView<S> {
        CanvasView {
            pan: self.pan,
            zoom: self.zoom,
            show_rulers: self.show_rulers,
            show_grid: self.show_grid,
            snap_enabled: self.snap_enabled,
            drag: self.drag@,
            pen: match self.pen {
                Some(points) => Some(points@),
                None => None,
            },
            selected_points: self.selected_points@,
            point_edit_layer: self.point_edit_layer,
            image_edit: match self.image_edit {
                Some(edit) => Some(edit@),
                None => None,
            },
            editing_text: self.editing_text,
            editing_text_just_started: self.editing_text_just_started,
            pending_font_resize: waiting_fonts(self.pending_font_resize@),
            text_edit_selection: self.text_edit_selection,
            duplicate_offset: self.duplicate_offset,
            insert_hint_parent: self.insert_hint_parent,
            reference_layer: self.reference_layer,
            tidy_spacing: self.tidy_spacing,
            last_distributed: match self.last_distributed {
                Some((ids, axis)) => Some((ids@, axis)),
                None => None,
            },
            aspect_locked: self.aspect_locked,
            scaling: match self.scaling {
                Some(ids) => Some(ids@),
                None => None,
            },
            scale_anchor: self.scale_anchor,
            overlap_menu: match self.overlap_menu {
                Some((at, ids)) => Some((at, ids@)),
                None => None,
            },
            canvas_menu: self.canvas_menu,
            point_type_menu: self.point_type_menu,
        }
    }

    pub open spec fn spec_new() -> CanvasView<S> {
        CanvasView {
            pan: Vec2::spec_zero(),
            zoom: S::spec_ratio(1, 1),
            show_rulers: true,
            show_grid: true,
            snap_enabled: true,
            drag: DragView::Idle,
            pen: None,
            selected_points: Seq::empty(),
            point_edit_layer: None,
            image_edit: None,
            editing_text: None,
            editing_text_just_started: false,
            pending_font_resize: Seq::empty(),
            text_edit_selection: None,
            duplicate_offset: crate::grouping::spec_default_duplicate_offset(),
            insert_hint_parent: None,
            reference_layer: None,
            tidy_spacing: S::spec_ratio(20, 1),
            last_distributed: None,
            aspect_locked: false,
            scaling: None,
            scale_anchor: ScaleAnchor::Corners,
            overlap_menu: None,
            canvas_menu: None,
            point_type_menu: None,
        }
    }

    /// A canvas at rest, showing the page at its own size.
    pub fn new() -> (r: Self)
        ensures
            r@ == Self::spec_new(),
    {
        let r = CanvasWidget {
            pan: Vec2::zero(),
            zoom: S::ratio(1, 1),
            show_rulers: true,
            show_grid: true,
            snap_enabled: true,
            drag: DragState::Idle,
            pen: None,
            selected_points: Vec::new(),
            point_edit_layer: None,
            image_edit: None,
            editing_text: None,
            editing_text_just_started: false,
            pending_font_resize: Vec::new(),
            text_edit_selection: None,
            duplicate_offset: crate::grouping::default_duplicate_offset(),
            insert_hint_parent: None,
            reference_layer: None,
            tidy_spacing: S::ratio(20, 1),
            last_distributed: None,
            aspect_locked: false,
            scaling: None,
            scale_anchor: ScaleAnchor::Corners,
            overlap_menu: None,
            canvas_menu: None,
            point_type_menu: None,
        };
        assert(r@.pending_font_resize =~= Seq::empty());
        r
    }
}

impl<S: Scalar> CanvasView<S> {
    /// The part of the canvas that shows the page: all of it, but for the strips of the rulers.
    pub open spec fn page_area(self, full: Rect<S>) -> Rect<S> {
        let ruler = if self.show_rulers {
            S::spec_ratio(20, 1)
        } else {
            S::spec_ratio(0, 1)
        };
        Rect { min: full.min.spec_plus(Vec2 { x: ruler, y: ruler }), max: full.max }
    }

    pub open spec fn viewport(self) -> Viewport<S> {
        Viewport { pan: self.pan, zoom: self.zoom }
    }

    pub open spec fn to_screen(self, origin: Pos2<S>, p: Pos2<S>) -> Pos2<S> {
        self.viewport().spec_to_screen(origin, p)
    }

    pub open spec fn to_doc(self, origin: Pos2<S>, p: Pos2<S>) -> Pos2<S> {
        self.viewport().spec_to_doc(origin, p)
    }

    /// The canvas with a path on the screen.
    pub open spec fn shows(self, origin: Pos2<S>, path: PathAt<S>) -> ScreenPathView<S> {
        ScreenPathView {
            points: path.points,
            closed: path.closed,
            base: path.pos.spec_to_vec2(),
            outer: path.outer,
            viewport: self.viewport(),
            origin,
        }
    }

    /// The canvas after the editing of `id` in place began.
    pub open spec fn editing(self, id: LayerId) -> Self {
        CanvasView { editing_text: Some(id), editing_text_just_started: true, ..self }
    }

    /// The canvas with nothing selected in the image that is edited.
    pub open spec fn with_clear_mask(self) -> Self {
        CanvasView {
            image_edit: match self.image_edit {
                Some(edit) => Some(
                    ImageEditView {
                        mask: Seq::new(edit.mask.len(), |i: int| false),
                        overlay_stale: true,
                        ..edit
                    },
                ),
                None => None,
            },
            ..self
        }
    }
}

/// Everything that a gesture on the canvas can change.
#[verifier::ext_equal]
pub struct Session<S> {
    pub canvas: CanvasView<S>,
    pub history: HistoryView<S>,
    pub tool: Tool,
    pub selection: Seq<LayerId>,
    /// The next unused layer id.
    pub next: int,
}

/// What a gesture on the canvas can change, as it is.
pub open spec fn session<S: Scalar>(
    canvas: CanvasWidget<S>,
    history: History<S>,
    tool: Tool,
    selection: Vec<LayerId>,
    source: IdSource,
) -> Session<S> {
    Session {
        canvas: canvas@,
        history: history@,
        tool,
        selection: selection@,
        next: source.next as int,
    }
}

/// A path of the page: where its points are relative to, in its parent and from there to the page.
#[verifier::ext_equal]
pub struct PathAt<S> {
    pub pos: Pos2<S>,
    pub outer: Vec2<S>,
    pub points: Seq<PathPoint<S>>,
    pub closed: bool,
}

/// The path with the given id.
pub open spec fn path_at<S: Scalar>(s: Seq<LayerView<S>>, id: LayerId) -> Option<PathAt<S>> {
    match (crate::tree::find(s, id), crate::document::offset_of(s, id, Vec2::spec_zero())) {
        (Some(v), Some(outer)) => match v.kind {
            KindView::Path { points, closed } => Some(
                PathAt { pos: v.frame.pos, outer, points, closed },
            ),
            _ => None,
        },
        _ => None,
    }
}

/// The one selected path, where a single path is selected.
pub open spec fn selected_path<S: Scalar>(
    s: Seq<LayerView<S>>,
    selection: Seq<LayerId>,
) -> Option<PathAt<S>> {
    if selection.len() == 1 {
        path_at(s, selection[0])
    } else {
        None
    }
}

/// A path layer with other points.
pub open spec fn with_points<S>(v: LayerView<S>, points: Seq<PathPoint<S>>, closed: bool) -> LayerView<
    S,
> {
    LayerView { kind: KindView::Path { points, closed }, ..v }
}

/// The layers after the first one with the given id, a path, took other points.
pub open spec fn repointed<S: Scalar>(
    s: Seq<LayerView<S>>,
    id: LayerId,
    points: Seq<PathPoint<S>>,
    closed: bool,
) -> Seq<LayerView<S>> {
    match crate::tree::find(s, id) {
        Some(v) => crate::tree::replace(s, id, with_points(v, points, closed)),
        None => s,
    }
}

/// [`repointed`], with the frame made the box of the anchors.
pub open spec fn reshaped<S: Scalar>(
    s: Seq<LayerView<S>>,
    id: LayerId,
    points: Seq<PathPoint<S>>,
    closed: bool,
) -> Seq<LayerView<S>> {
    match crate::tree::find(s, id) {
        Some(v) => crate::tree::replace(s, id, normalized(with_points(v, points, closed))),
        None => s,
    }
}

/// Reads the path with the given id: its frame's position, the offset of its parent, its points,
/// and whether it is closed.
pub fn read_path<S: Scalar>(history: &History<S>, layer_id: LayerId) -> (r: Option<
    (Pos2<S>, Vec2<S>, Vec<PathPoint<S>>, bool),
>)
    requires
        history@.current.wf(),
    ensures
        match path_at(history@.layers(), layer_id) {
            Some(p) => r matches Some(found) && found.0 == p.pos && found.1 == p.outer && found.2@
                == p.points && found.3 == p.closed,
            None => r is None,
        },
{
    let page = history.page();
    match (page.find(layer_id), page.absolute_offset(layer_id)) {
        (Some(layer), Some(offset)) => match &layer.kind {
            LayerKind::Path { points, closed } => Some(
                (layer.frame.pos, offset, copy_vec(points), *closed),
            ),
            _ => None,
        },
        _ => None,
    }
}

/// Gives the path with the given id other points; with `fit`, its frame becomes the box of them.
pub fn set_path<S: Scalar>(
    history: &mut History<S>,
    layer_id: LayerId,
    new_points: Vec<PathPoint<S>>,
    new_closed: bool,
    fit: bool,
)
    requires
        old(history)@.current.wf(),
        path_at(old(history)@.layers(), layer_id) is Some,
    ensures
        final(history)@ == old(history)@.with_layers(
            if fit {
                reshaped(old(history)@.layers(), layer_id, new_points@, new_closed)
            } else {
                repointed(old(history)@.layers(), layer_id, new_points@, new_closed)
            },
        ),
{
    let page = history.page_mut();
    if let Some(layer) = page.find_mut(layer_id) {
        if let LayerKind::Path { points, closed } = &mut layer.kind {
            *points = new_points;
            *closed = new_closed;
        }
        if fit {
            normalize_layer(layer);
        }
    }
}

impl<S: Scalar> CanvasWidget<S> {
    pub fn viewport(&self) -> (r: Viewport<S>)
        ensures
            r == self@.viewport(),
    {
        Viewport { pan: self.pan, zoom: self.zoom }
    }

    /// The part of the canvas that shows the page: all of it, but for the strips of the rulers.
    pub fn page_area(&self, full: Rect<S>) -> (r: Rect<S>)
        ensures
            r == self@.page_area(full),
    {
        let ruler = if self.show_rulers {
            S::ratio(20, 1)
        } else {
            S::ratio(0, 1)
        };
        Rect { min: full.min.plus(Vec2 { x: ruler, y: ruler }), max: full.max }
    }

    /// Where a point of the page is on the screen, the canvas starting at `origin`.
    pub fn to_screen(&self, origin: Pos2<S>, p: Pos2<S>) -> (r: Pos2<S>)
        ensures
            r == self@.to_screen(origin, p),
    {
        self.viewport().to_screen(origin, p)
    }

    /// Which point of the page is at a point of the screen.
    pub fn to_doc(&self, origin: Pos2<S>, p: Pos2<S>) -> (r: Pos2<S>)
        ensures
            r == self@.to_doc(origin, p),
    {
        self.viewport().to_doc(origin, p)
    }

    /// Whether points of a path are selected.
    pub fn has_point_selection(&self) -> (r: bool)
        ensures
            r == (self@.selected_points.len() > 0),
    {
        self.selected_points.len() > 0
    }

    /// Whether the pixels of that image are being edited.
    pub fn image_edit_active_for(&self, id: LayerId) -> (r: bool)
        ensures
            r == (self@.image_edit matches Some(edit) && edit.layer_id == id),
    {
        match &self.image_edit {
            Some(edit) => edit.layer_id == id,
            None => false,
        }
    }

    /// Asks for the text to be measured again, a few times, once the family is there.
    pub fn queue_font_resize_retry(&mut self, id: LayerId, family: String)
        ensures
            final(self)@ == (CanvasView {
                pending_font_resize: old(self)@.pending_font_resize.push((id, family@, 5u8)),
                ..old(self)@
            }),
    {
        let ghost before = self@.pending_font_resize;
        let ghost entry = (id, family@, 5u8);
        self.pending_font_resize.push((id, family, 5));
        assert(self@.pending_font_resize =~= before.push(entry));
    }

    /// Starts to edit a text in place, from a snapshot; nothing happens where that goes on already.
    pub fn start_editing_text(&mut self, history: &mut History<S>, id: LayerId)
        ensures
            old(self)@.editing_text == Some(id) ==> *final(self) == *old(self) && *final(history)
                == *old(history),
            old(self)@.editing_text != Some(id) ==> final(self)@ == old(self)@.editing(id)
                && final(history)@ == old(history)@.after_snapshot(),
    {
        if self.is_editing_text(id) {
            return;
        }
        history.snapshot();
        self.editing_text = Some(id);
        self.editing_text_just_started = true;
    }

    /// Whether that text is being edited in place.
    pub fn is_editing_text(&self, id: LayerId) -> (r: bool)
        ensures
            r == (self@.editing_text == Some(id)),
    {
        match self.editing_text {
            Some(editing) => editing == id,
            None => false,
        }
    }

    /// Starts to edit the pixels of an image, none of them selected; nothing happens where no page
    /// has such an image.
    pub fn begin_image_edit(&mut self, history: &History<S>, id: LayerId)
        requires
            find_from(history@.current.pages, id, 0) matches Some(v) && v.kind matches KindView::Image {
                width,
                height,
                ..
            } ==> width * height <= usize::MAX,
        ensures
            match find_from(history@.current.pages, id, 0) {
                Some(v) => match v.kind {
                    KindView::Image { width, height, .. } => final(self)@ == (CanvasView {
                        image_edit: Some(
                            ImageEditView {
                                layer_id: id,
                                tolerance: S::spec_ratio(24, 1),
                                mask: Seq::new((width * height) as nat, |i: int| false),
                                width,
                                height,
                                fill_color: Color32 { r: 255, g: 255, b: 255, a: 255 },
                                overlay_stale: false,
                            },
                        ),
                        drag: DragView::Idle,
                        ..old(self)@
                    }),
                    _ => *final(self) == *old(self),
                },
                None => *final(self) == *old(self),
            },
    {
        if let Some(layer) = history.get().find(id) {
            if let LayerKind::Image { width, height, .. } = &layer.kind {
                let w: usize = *width as usize;
                let h: usize = *height as usize;
                assert(w * h == *width * *height);
                let mask = clear_mask_of(w * h);
                self.image_edit = Some(
                    ImageEditState {
                        layer_id: id,
                        tolerance: S::ratio(24, 1),
                        mask,
                        width: *width,
                        height: *height,
                        fill_color: Color32::from_rgb(255, 255, 255),
                        overlay_stale: false,
                    },
                );
                self.drag = DragState::Idle;
            }
        }
    }

    /// Leaves the editing of an image.
    pub fn end_image_edit(&mut self)
        ensures
            final(self)@ == (CanvasView { image_edit: None, ..old(self)@ }),
    {
        self.image_edit = None;
    }

    pub fn image_edit_tolerance(&self) -> (r: S)
        ensures
            r == (match self@.image_edit {
                Some(edit) => edit.tolerance,
                None => S::spec_ratio(24, 1),
            }),
    {
        match &self.image_edit {
            Some(edit) => edit.tolerance,
            None => S::ratio(24, 1),
        }
    }

    pub fn set_image_edit_tolerance(&mut self, tolerance: S)
        ensures
            final(self)@ == (CanvasView {
                image_edit: match old(self)@.image_edit {
                    Some(edit) => Some(ImageEditView { tolerance, ..edit }),
                    None => None,
                },
                ..old(self)@
            }),
    {
        if let Some(edit) = &mut self.image_edit {
            edit.tolerance = tolerance;
        }
    }

    pub fn image_edit_has_selection(&self) -> (r: bool)
        ensures
            r == (self@.image_edit matches Some(edit) && !crate::image_edit::is_clear(edit.mask)),
    {
        match &self.image_edit {
            Some(edit) => edit.has_selection(),
            None => false,
        }
    }

    pub fn image_edit_fill_color(&self) -> (r: Color32)
        ensures
            r == (match self@.image_edit {
                Some(edit) => edit.fill_color,
                None => Color32 { r: 255, g: 255, b: 255, a: 255 },
            }),
    {
        match &self.image_edit {
            Some(edit) => edit.fill_color,
            None => Color32::from_rgb(255, 255, 255),
        }
    }

    pub fn set_image_edit_fill_color(&mut self, color: Color32)
        ensures
            final(self)@ == (CanvasView {
                image_edit: match old(self)@.image_edit {
                    Some(edit) => Some(ImageEditView { fill_color: color, ..edit }),
                    None => None,
                },
                ..old(self)@
            }),
    {
        if let Some(edit) = &mut self.image_edit {
            edit.fill_color = color;
        }
    }

    /// Selects no pixel of the image that is edited.
    pub fn clear_image_edit_selection(&mut self)
        ensures
            final(self)@ == old(self)@.with_clear_mask(),
    {
        if let Some(edit) = &mut self.image_edit {
            let n = edit.mask.len();
            edit.mask = clear_mask_of(n);
            edit.mark_dirty();
        }
        assert(self@ =~= old(self)@.with_clear_mask());
    }

    /// The image that is edited: its layer, its box on the page, and its size in pixels.
    pub fn image_edit_doc_bounds(&self, history: &History<S>) -> (r: Option<
        (LayerId, Rect<S>, u32, u32),
    >)
        requires
            history@.current.wf(),
        ensures
            r == edited_image(self@, history@.layers()),
    {
        let edit = match &self.image_edit {
            Some(edit) => edit,
            None => {
                return None;
            },
        };
        let page = history.page();
        match (page.find(edit.layer_id), page.absolute_offset(edit.layer_id)) {
            (Some(layer), Some(offset)) => Some(
                (edit.layer_id, layer.frame.bounds().translate(offset), edit.width, edit.height),
            ),
            _ => None,
        }
    }

    /// The first guide that passes within reach of the pointer.
    pub fn hovered_guide_index(&self, origin: Pos2<S>, guides: &Vec<Guide<S>>, mouse: Pos2<S>) -> (r:
        Option<usize>)
        ensures
            match guide_under(self@, origin, guides@, mouse, 0) {
                Some(k) => r == Some(k as usize) && 0 <= k < guides@.len(),
                None => r is None,
            },
    {
        let mut i: usize = 0;
        while i < guides.len()
            invariant
                i <= guides.len(),
                guide_under(self@, origin, guides@, mouse, 0) == guide_under(
                    self@,
                    origin,
                    guides@,
                    mouse,
                    i as int,
                ),
            decreases guides.len() - i,
        {
            let g = guides[i];
            let zero = S::ratio(0, 1);
            let near = match g.orientation {
                GuideOrientation::Horizontal => mouse.y.minus(
                    self.to_screen(origin, Pos2 { x: zero, y: g.pos }).y,
                ).magnitude().is_le(S::ratio(4, 1)),
                GuideOrientation::Vertical => mouse.x.minus(
                    self.to_screen(origin, Pos2 { x: g.pos, y: zero }).x,
                ).magnitude().is_le(S::ratio(4, 1)),
            };
            if near {
                return Some(i);
            }
            i += 1;
        }
        None
    }
}

/// The image that is edited: its layer, its box on the page, and its size in pixels.
pub open spec fn edited_image<S: Scalar>(c: CanvasView<S>, s: Seq<LayerView<S>>) -> Option<
    (LayerId, Rect<S>, u32, u32),
> {
    match c.image_edit {
        Some(edit) => match (
            crate::tree::find(s, edit.layer_id),
            crate::document::offset_of(s, edit.layer_id, Vec2::spec_zero()),
        ) {
            (Some(v), Some(outer)) => Some(
                (
                    edit.layer_id,
                    v.frame.spec_bounds().spec_translate(outer),
                    edit.width,
                    edit.height,
                ),
            ),
            _ => None,
        },
        None => None,
    }
}

/// Whether a guide passes within four pixels of a point of the screen.
pub open spec fn near_guide<S: Scalar>(
    c: CanvasView<S>,
    origin: Pos2<S>,
    g: Guide<S>,
    mouse: Pos2<S>,
) -> bool {
    let zero = S::spec_ratio(0, 1);
    let off = match g.orientation {
        GuideOrientation::Horizontal => mouse.y.spec_minus(
            c.to_screen(origin, Pos2 { x: zero, y: g.pos }).y,
        ),
        GuideOrientation::Vertical => mouse.x.spec_minus(
            c.to_screen(origin, Pos2 { x: g.pos, y: zero }).x,
        ),
    };
    off.spec_magnitude().spec_le(S::spec_ratio(4, 1))
}

/// The first guide, from `k` on, that passes within reach of the pointer.
pub open spec fn guide_under<S: Scalar>(
    c: CanvasView<S>,
    origin: Pos2<S>,
    guides: Seq<Guide<S>>,
    mouse: Pos2<S>,
    k: int,
) -> Option<int>
    decreases guides.len() - k,
{
    if k < 0 || k >= guides.len() {
        None
    } else if near_guide(c, origin, guides[k], mouse) {
        Some(k)
    } else {
        guide_under(c, origin, guides, mouse, k + 1)
    }
}

/// A mask with no pixel selected.
pub fn clear_mask_of(n: usize) -> (r: Vec<bool>)
    ensures
        r@ == Seq::new(n as nat, |i: int| false),
{
    let mut r: Vec<bool> = Vec::new();
    let mut i: usize = 0;
    while i < n
        invariant
            i <= n,
            r@ == Seq::new(i as nat, |k: int| false),
        decreases n - i,
    {
        r.push(false);
        i += 1;
        assert(r@ =~= Seq::new(i as nat, |k: int| false));
    }
    r
}

} // verus!
