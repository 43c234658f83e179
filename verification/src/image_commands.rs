//! What is done to the selected pixels of the image that is edited.
use vstd::prelude::*;

use crate::canvas::{CanvasView, CanvasWidget, ImageEditView};
use crate::color::Color32;
use crate::document::{offset_of, Page};
use crate::dragging::with_layer;
use crate::geometry::{Pos2, Rect, Vec2};
use crate::history::History;
use crate::image_edit::{is_bbox, is_clear, mask_bbox};
use crate::model::{group_views, Frame, IdSource, KindView, Layer, LayerKind, LayerView};
use crate::scalar::Scalar;

verus! {

broadcast use group_views;

/// A pixel whose channels are not multiplied by its alpha.
#[derive(Clone, Copy, Debug, PartialEq, Eq, Structural)]
pub struct Pixel {
    pub r: u8,
    pub g: u8,
    pub b: u8,
    pub a: u8,
}

/// The pixels with the masked ones replaced.
pub open spec fn masked_over(pixels: Seq<Pixel>, mask: Seq<bool>, with: Pixel) -> Seq<Pixel> {
    Seq::new(
        pixels.len(),
        |i: int|
            if i < mask.len() && mask[i] {
                with
            } else {
                pixels[i]
            },
    )
}

fn replace_masked(pixels: &mut Vec<Pixel>, mask: &Vec<bool>, with: Pixel)
    ensures
        final(pixels)@ == masked_over(old(pixels)@, mask@, with),
{
    let ghost start = pixels@;
    let n = pixels.len();
    let mut i: usize = 0;
    while i < n
        invariant
            n == start.len(),
            pixels.len() == n,
            i <= n,
            forall|k: int| 0 <= k < i ==> pixels@[k] == masked_over(start, mask@, with)[k],
            forall|k: int| i <= k < n ==> pixels@[k] == start[k],
        decreases n - i,
    {
        if i < mask.len() && mask[i] {
            pixels.set(i, with);
        }
        i += 1;
    }
    assert(pixels@ =~= masked_over(start, mask@, with));
}

/// Paints the masked pixels in one opaque colour.
pub fn fill_mask(pixels: &mut Vec<Pixel>, mask: &Vec<bool>, color: Color32)
    ensures
        final(pixels)@ == masked_over(
            old(pixels)@,
            mask@,
            Pixel { r: color.r, g: color.g, b: color.b, a: 255 },
        ),
{
    replace_masked(pixels, mask, Pixel { r: color.r, g: color.g, b: color.b, a: 255 });
}

/// Makes the masked pixels transparent.
pub fn clear_mask(pixels: &mut Vec<Pixel>, mask: &Vec<bool>)
    ensures
        final(pixels)@ == masked_over(old(pixels)@, mask@, Pixel { r: 0, g: 0, b: 0, a: 0 }),
{
    replace_masked(pixels, mask, Pixel { r: 0, g: 0, b: 0, a: 0 });
}

/// Painting the same pixels twice is painting them once.
pub proof fn law_filling_twice_is_filling_once(pixels: Seq<Pixel>, mask: Seq<bool>, with: Pixel)
    ensures
        masked_over(masked_over(pixels, mask, with), mask, with) == masked_over(
            pixels,
            mask,
            with,
        ),
{
    assert(masked_over(masked_over(pixels, mask, with), mask, with) =~= masked_over(
        pixels,
        mask,
        with,
    ));
}

/// The colour in which the selected pixels are shown.
pub open spec fn overlay_color(selected: bool) -> Color32 {
    if selected {
        Color32::spec_unmultiplied(0, 90, 158, 120)
    } else {
        Color32::spec_transparent()
    }
}

/// Where on the screen the image that is edited is; nowhere, if it is not on the page.
pub open spec fn edited_area<S: Scalar>(
    c: CanvasView<S>,
    layers: Seq<LayerView<S>>,
    origin: Pos2<S>,
) -> Option<Rect<S>> {
    match c.image_edit {
        Some(edit) => match (
            crate::tree::find(layers, edit.layer_id),
            offset_of(layers, edit.layer_id, Vec2::spec_zero()),
        ) {
            (Some(v), Some(outer)) => {
                let b = v.frame.spec_bounds().spec_translate(outer);
                Some(
                    Rect::spec_from_two_pos(c.to_screen(origin, b.min), c.to_screen(origin, b.max)),
                )
            },
            _ => None,
        },
        None => None,
    }
}

/// The picture of a selection of pixels, to be laid over the image.
pub fn build_mask_overlay(mask: &Vec<bool>) -> (r: Vec<Color32>)
    ensures
        r@ == Seq::new(mask@.len(), |i: int| overlay_color(mask@[i])),
{
    let selected = Color32::from_rgba_unmultiplied(0, 90, 158, 120);
    let mut r: Vec<Color32> = Vec::new();
    let mut i: usize = 0;
    while i < mask.len()
        invariant
            selected == Color32::spec_unmultiplied(0, 90, 158, 120),
            i <= mask.len(),
            r@ == Seq::new(i as nat, |i: int| overlay_color(mask@[i])),
        decreases mask.len() - i,
    {
        r.push(
            if mask[i] {
                selected
            } else {
                Color32::transparent()
            },
        );
        i += 1;
        assert(r@ =~= Seq::new(i as nat, |i: int| overlay_color(mask@[i])));
    }
    r
}

/// An image layer with other bytes, under another version; other layers stay as they are.
pub open spec fn repainted<S>(v: LayerView<S>, bytes: Seq<u8>, version: u64) -> LayerView<S> {
    match v.kind {
        KindView::Image { encoded, version: was, color_adjust, width, height } => LayerView {
            kind: KindView::Image { encoded: bytes, version, color_adjust, width, height },
            ..v
        },
        _ => v,
    }
}

/// The part of a frame that shows the pixels of a box, of an image `width` by `height` pixels.
pub open spec fn cropped_frame<S: Scalar>(
    f: Frame<S>,
    width: u32,
    height: u32,
    b: (u32, u32, u32, u32),
) -> Frame<S> {
    let r = f.spec_bounds();
    let px = r.spec_width().spec_over(S::spec_ratio(width as int, 1));
    let py = r.spec_height().spec_over(S::spec_ratio(height as int, 1));
    Frame {
        pos: Pos2 {
            x: r.min.x.spec_plus(S::spec_ratio(b.0 as int, 1).spec_times(px)),
            y: r.min.y.spec_plus(S::spec_ratio(b.1 as int, 1).spec_times(py)),
        },
        size: Vec2 {
            x: S::spec_ratio(b.2 - b.0 + 1, 1).spec_times(px),
            y: S::spec_ratio(b.3 - b.1 + 1, 1).spec_times(py),
        },
        rotation: f.rotation,
    }
}

/// An image layer cut to a box of its pixels; other layers stay as they are.
pub open spec fn cropped<S: Scalar>(
    v: LayerView<S>,
    bytes: Seq<u8>,
    version: u64,
    b: (u32, u32, u32, u32),
) -> LayerView<S> {
    match v.kind {
        KindView::Image { encoded, version: was, color_adjust, width, height } => LayerView {
            frame: cropped_frame(v.frame, width, height, b),
            kind: KindView::Image {
                encoded: bytes,
                version,
                color_adjust,
                width: (b.2 - b.0 + 1) as u32,
                height: (b.3 - b.1 + 1) as u32,
            },
            ..v
        },
        _ => v,
    }
}

/// Gives an image layer other bytes under another version.
fn repaint<S: Scalar>(layer: &mut Layer<S>, bytes: Vec<u8>, version: u64)
    ensures
        final(layer)@ == repainted(old(layer)@, bytes@, version),
{
    if let LayerKind::Image { encoded, version: v, .. } = &mut layer.kind {
        *encoded = bytes;
        *v = version;
    }
}

/// Cuts an image layer to a box of its pixels.
fn crop_layer<S: Scalar>(layer: &mut Layer<S>, bytes: Vec<u8>, version: u64, b: (u32, u32, u32, u32))
    requires
        b.0 <= b.2 < u32::MAX,
        b.1 <= b.3 < u32::MAX,
    ensures
        final(layer)@ == cropped(old(layer)@, bytes@, version, b),
{
    let frame = layer.frame;
    let mut after = frame;
    if let LayerKind::Image { encoded, version: v, width, height, .. } = &mut layer.kind {
        let r = frame.bounds();
        let px = r.width().over(S::of_count(*width as u64));
        let py = r.height().over(S::of_count(*height as u64));
        let w: u32 = b.2 - b.0 + 1;
        let h: u32 = b.3 - b.1 + 1;
        after = Frame {
            pos: Pos2 {
                x: r.min.x.plus(S::of_count(b.0 as u64).times(px)),
                y: r.min.y.plus(S::of_count(b.1 as u64).times(py)),
            },
            size: Vec2 {
                x: S::of_count(w as u64).times(px),
                y: S::of_count(h as u64).times(py),
            },
            rotation: frame.rotation,
        };
        *encoded = bytes;
        *v = version;
        *width = w;
        *height = h;
    }
    layer.frame = after;
}

/// A box holds at least one pixel, and no more than the mask does.
proof fn lemma_box_bounds(mask: Seq<bool>, width: u32, b: (u32, u32, u32, u32))
    requires
        is_bbox(mask, width, b),
        width > 0,
        mask.len() <= u32::MAX,
    ensures
        b.0 <= b.2 < width,
        b.1 <= b.3 < u32::MAX,
{
    let w = width as int;
    let i = choose|i: int| 0 <= i < mask.len() && #[trigger] mask[i] && i % w == b.2;
    let j = choose|j: int| 0 <= j < mask.len() && #[trigger] mask[j] && j / w == b.3;
    assert(0 <= i % w < w) by (nonlinear_arith)
        requires
            w > 0,
    ;
    assert(j / w <= j) by (nonlinear_arith)
        requires
            w > 0,
            j >= 0,
    ;
    assert(mask[i] && mask[j]);
}

/// The canvas and the layers after the selected pixels were painted over: the image has the bytes
/// `painted`, if it could be read, and no pixel is selected any more.
pub open spec fn pixels_painted<S: Scalar>(
    c: CanvasView<S>,
    s: Seq<LayerView<S>>,
    painted: Option<Seq<u8>>,
    version: u64,
) -> Seq<LayerView<S>> {
    match (c.image_edit, painted) {
        (Some(edit), Some(bytes)) => with_layer(
            s,
            edit.layer_id,
            |v: LayerView<S>| repainted(v, bytes, version),
        ),
        _ => s,
    }
}

/// The bytes of an image, if there are any, over a sequence.
pub open spec fn bytes_view(b: Option<Vec<u8>>) -> Option<Seq<u8>> {
    match b {
        Some(v) => Some(v@),
        None => None,
    }
}

impl<S: Scalar> CanvasWidget<S> {
    /// Where on the screen the image that is edited is; nowhere, if it is not on the page.
    pub fn image_edit_area(&self, page: &Page<S>, origin: Pos2<S>) -> (r: Option<Rect<S>>)
        ensures
            r == edited_area(self@, page@.layers, origin),
    {
        match &self.image_edit {
            Some(edit) => match (page.find(edit.layer_id), page.absolute_offset(edit.layer_id)) {
                (Some(layer), Some(outer)) => {
                    let b = layer.frame.bounds().translate(outer);
                    Some(
                        Rect::from_two_pos(
                            self.to_screen(origin, b.min),
                            self.to_screen(origin, b.max),
                        ),
                    )
                },
                _ => None,
            },
            None => None,
        }
    }

    /// The picture of the selected pixels, where the one that is shown is out of date or there is
    /// none yet.
    pub fn refresh_overlay(&mut self, shown: bool) -> (r: Option<Vec<Color32>>)
        ensures
            match old(self)@.image_edit {
                Some(edit) => if edit.overlay_stale || !shown {
                    &&& r matches Some(pixels) && pixels@ == Seq::new(
                        edit.mask.len(),
                        |i: int| overlay_color(edit.mask[i]),
                    )
                    &&& final(self)@ == (CanvasView {
                        image_edit: Some(ImageEditView { overlay_stale: false, ..edit }),
                        ..old(self)@
                    })
                } else {
                    r is None && final(self)@ == old(self)@
                },
                None => r is None && final(self)@ == old(self)@,
            },
    {
        match &mut self.image_edit {
            Some(edit) => {
                if edit.overlay_stale || !shown {
                    edit.overlay_stale = false;
                    Some(build_mask_overlay(&edit.mask))
                } else {
                    None
                }
            },
            None => None,
        }
    }

    /// Whether there are pixels selected in an image that is edited.
    pub open spec fn selects_pixels(c: CanvasView<S>) -> bool {
        c.image_edit matches Some(edit) && !is_clear(edit.mask)
    }

    /// Gives the edited image the bytes that it has once its selected pixels were painted over,
    /// from a snapshot, and selects none of them any more. Nothing happens where none is selected.
    pub fn apply_image_edit_fill(
        &mut self,
        history: &mut History<S>,
        painted: Option<Vec<u8>>,
        source: &mut IdSource,
    )
        requires
            old(history)@.current.wf(),
            old(source).next < u64::MAX,
        ensures
            if Self::selects_pixels(old(self)@) {
                &&& final(self)@ == old(self)@.with_clear_mask()
                &&& final(history)@ == old(history)@.after_snapshot().with_layers(
                    pixels_painted(
                        old(self)@,
                        old(history)@.layers(),
                        bytes_view(painted),
                        old(source).next,
                    ),
                )
                &&& final(source).next == old(source).next + 1
            } else {
                &&& final(self)@ == old(self)@
                &&& final(history)@ == old(history)@
                &&& final(source).next == old(source).next
            },
    {
        let id = match &self.image_edit {
            Some(edit) => if edit.has_selection() {
                edit.layer_id
            } else {
                return;
            },
            None => return,
        };
        history.snapshot();
        let version = source.fresh();
        let ghost h = history@;
        proof {
            crate::history::lemma_unedited(h);
        }
        if let Some(bytes) = painted {
            if let Some(layer) = history.page_mut().find_mut(id) {
                repaint(layer, bytes, version);
            }
        }
        self.clear_image_edit_selection();
    }

    /// Like [`CanvasWidget::apply_image_edit_fill`], with bytes in which the selected pixels were
    /// made transparent.
    pub fn apply_image_edit_delete(
        &mut self,
        history: &mut History<S>,
        painted: Option<Vec<u8>>,
        source: &mut IdSource,
    )
        requires
            old(history)@.current.wf(),
            old(source).next < u64::MAX,
        ensures
            if Self::selects_pixels(old(self)@) {
                &&& final(self)@ == old(self)@.with_clear_mask()
                &&& final(history)@ == old(history)@.after_snapshot().with_layers(
                    pixels_painted(
                        old(self)@,
                        old(history)@.layers(),
                        bytes_view(painted),
                        old(source).next,
                    ),
                )
                &&& final(source).next == old(source).next + 1
            } else {
                &&& final(self)@ == old(self)@
                &&& final(history)@ == old(history)@
                &&& final(source).next == old(source).next
            },
    {
        self.apply_image_edit_fill(history, painted, source);
    }

    /// The box of the selected pixels: where it begins, and how large it is.
    pub fn image_edit_crop_box(&self) -> (r: Option<(u32, u32, u32, u32)>)
        requires
            self@.image_edit matches Some(edit) ==> is_clear(edit.mask) || (edit.width > 0
                && edit.mask.len() <= u32::MAX),
        ensures
            match self@.image_edit {
                Some(edit) => match r {
                    Some(b) => is_bbox(edit.mask, edit.width, b),
                    None => is_clear(edit.mask),
                },
                None => r is None,
            },
    {
        match &self.image_edit {
            Some(edit) => mask_bbox(edit.mask.as_slice(), edit.width),
            None => None,
        }
    }

    /// Cuts the edited image to the box of its selected pixels, from a snapshot, and ends the
    /// editing; without selected pixels it only ends. `bytes` are those of the cut image, if it
    /// could be read.
    pub fn apply_image_edit_crop(
        &mut self,
        history: &mut History<S>,
        bytes: Option<Vec<u8>>,
        source: &mut IdSource,
    )
        requires
            old(history)@.current.wf(),
            old(source).next < u64::MAX,
            old(self)@.image_edit matches Some(edit) ==> is_clear(edit.mask) || (edit.width > 0
                && edit.mask.len() <= u32::MAX),
        ensures
            final(self)@ == (CanvasView { image_edit: None, ..old(self)@ }),
            match old(self)@.image_edit {
                Some(edit) => if is_clear(edit.mask) {
                    final(history)@ == old(history)@ && final(source).next == old(source).next
                } else {
                    exists|b: (u32, u32, u32, u32)|
                        #![trigger is_bbox(edit.mask, edit.width, b)]
                        is_bbox(edit.mask, edit.width, b) && final(history)@ == old(
                            history,
                        )@.after_snapshot().with_layers(
                            match bytes {
                                Some(bytes) => with_layer(
                                    old(history)@.layers(),
                                    edit.layer_id,
                                    |v: LayerView<S>| cropped(v, bytes@, old(source).next, b),
                                ),
                                None => old(history)@.layers(),
                            },
                        ) && final(source).next == old(source).next + 1
                },
                None => final(history)@ == old(history)@ && final(source).next == old(source).next,
            },
    {
        let (id, b) = match &self.image_edit {
            Some(edit) => match mask_bbox(edit.mask.as_slice(), edit.width) {
                Some(b) => {
                    proof {
                        lemma_box_bounds(edit.mask@, edit.width, b);
                        let i = choose|i: int|
                            0 <= i < edit.mask@.len() && #[trigger] edit.mask@[i] && i % (
                            edit.width as int) == b.0;
                        assert(edit.mask@[i]);
                    }
                    (edit.layer_id, b)
                },
                None => {
                    self.end_image_edit();
                    return;
                },
            },
            None => {
                assert(self@ == (CanvasView { image_edit: None, ..self@ }));
                return;
            },
        };
        history.snapshot();
        let version = source.fresh();
        proof {
            crate::history::lemma_unedited(history@);
        }
        if let Some(bytes) = bytes {
            if let Some(layer) = history.page_mut().find_mut(id) {
                crop_layer(layer, bytes, version, b);
            }
        }
        self.end_image_edit();
        let ghost edit = old(self)@.image_edit->0;
        assert(is_bbox(edit.mask, edit.width, b));
    }
}

} // verus!
