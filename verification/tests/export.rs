use ab_glyph::{Font, FontRef, PxScale, ScaleFont};
use geo::{BooleanOps, Contains, Coord, LineString, MultiPolygon, Point as GeoPoint, Polygon};
use sdesign::boolean_ops::{
    apply_boolean_op, boolean_op_program, compute_boolean_group, create_boolean_group,
    joined_regions, ring_from_points, ring_to_points, ShapeStep,
};
use sdesign::color::Color32;
use sdesign::document::Page;
use sdesign::fonts::FontFile;
use sdesign::geometry::{Pos2, Rect, Vec2};
use sdesign::glyphs::{
    blend_glyph_pixel, choose_faces, face_table, glyph_offsets, layer_text, pixel_index,
    place_glyph_pixel,
};
use sdesign::halftone_fill;
use sdesign::model::{
    ArrowCap, BoolOp, ColorAdjust, CornerRadii, Frame, IdSource, Layer, LayerId, LayerKind,
    PathPoint, PathPolygon, PointType,
};
use sdesign::outlines::{Outline, PathStep};
use sdesign::placement::new_artboard;
use sdesign::rendering::{
    draw_layer, draw_region, render_layer, render_layer_plain, Draw, Picture, Shade, Turn,
};
use sdesign::scalar::Scalar;
use sdesign::style::{
    Gradient, GradientKind, GradientStop, HalftoneFill, NoiseFill, Paint as LayerPaint,
    PatternFill, Shadow, Stroke,
};
use sdesign::text::{
    RunStyle, TextAlign, TextBlock, TextFont, TextResize, TextRun, VerticalAlign,
};
use sdesign::text_rows::{draw_text_rich, TextInk};
use sdesign::tree::find_layer;
use sdesign::typesetting::{wrap_line, Metrics, Tagged};
use tiny_skia::{
    BlendMode, Color, FillRule, FilterQuality, GradientStop as SkStop, LineCap, LinearGradient,
    Mask, MaskType, Paint, Path, PathBuilder, Pattern, Pixmap, PixmapPaint, Point,
    PremultipliedColorU8, RadialGradient, Rect as SkRect, SpreadMode, Stroke as SkStroke, Transform,
};

#[derive(Clone, Copy, Debug, PartialEq)]
struct R(f32);

impl Scalar for R {
    fn ratio(num: i32, den: i32) -> Self {
        R(num as f32 / den as f32)
    }
    fn of_count(n: u64) -> Self {
        R(n as f32)
    }
    fn of_int(n: i64) -> Self {
        R(n as f32)
    }
    fn plus(self, other: Self) -> Self {
        R(self.0 + other.0)
    }
    fn minus(self, other: Self) -> Self {
        R(self.0 - other.0)
    }
    fn times(self, other: Self) -> Self {
        R(self.0 * other.0)
    }
    fn over(self, other: Self) -> Self {
        R(self.0 / other.0)
    }
    fn negated(self) -> Self {
        R(-self.0)
    }
    fn magnitude(self) -> Self {
        R(self.0.abs())
    }
    fn lesser(self, other: Self) -> Self {
        R(self.0.min(other.0))
    }
    fn greater(self, other: Self) -> Self {
        R(self.0.max(other.0))
    }
    fn is_lt(self, other: Self) -> bool {
        self.0 < other.0
    }
    fn is_le(self, other: Self) -> bool {
        self.0 <= other.0
    }
    fn is_same(self, other: Self) -> bool {
        self.0 == other.0
    }
    fn rounded(self) -> Self {
        R(self.0.round())
    }
    fn floored(self) -> Self {
        R(self.0.floor())
    }
    fn ceiled(self) -> Self {
        R(self.0.ceil())
    }
    fn decade(self) -> Self {
        R(10f32.powf(self.0.log10().floor()))
    }
    fn root(self) -> Self {
        R(self.0.sqrt())
    }
    fn hypot(self, other: Self) -> Self {
        R(self.0.hypot(other.0))
    }
    fn sin_deg(self) -> Self {
        R(self.0.to_radians().sin())
    }
    fn cos_deg(self) -> Self {
        R(self.0.to_radians().cos())
    }
    fn atan2(self, x: Self) -> Self {
        R(self.0.atan2(x.0))
    }
    fn to_degrees(self) -> Self {
        R(self.0.to_degrees())
    }
    fn is_finite(self) -> bool {
        self.0.is_finite()
    }
    fn to_i64(self) -> i64 {
        self.0 as i64
    }
}

fn p(x: f32, y: f32) -> Pos2<R> {
    Pos2::new(R(x), R(y))
}

fn v(x: f32, y: f32) -> Vec2<R> {
    Vec2::new(R(x), R(y))
}

fn to_line(points: &[Pos2<R>]) -> LineString<f64> {
    let ring = ring_from_points(&points.to_vec());
    LineString::new(ring.iter().map(|q| Coord { x: q.x.0 as f64, y: q.y.0 as f64 }).collect())
}

fn to_ring(line: &LineString<f64>) -> Vec<Pos2<R>> {
    ring_to_points(&line.0.iter().map(|c| p(c.x as f32, c.y as f32)).collect())
}

fn to_region(polygons: &[PathPolygon<R>]) -> MultiPolygon<f64> {
    MultiPolygon::new(
        polygons
            .iter()
            .map(|q| {
                Polygon::new(to_line(&q.exterior), q.holes.iter().map(|h| to_line(h)).collect())
            })
            .collect(),
    )
}

fn to_polygons(region: &MultiPolygon<f64>) -> Vec<PathPolygon<R>> {
    region
        .0
        .iter()
        .map(|q| PathPolygon {
            exterior: to_ring(q.exterior()),
            holes: q.interiors().iter().map(to_ring).collect(),
        })
        .collect()
}

/// Runs the program of a region.
fn run(steps: &[ShapeStep<R>]) -> MultiPolygon<f64> {
    let mut stack: Vec<MultiPolygon<f64>> = Vec::new();
    for step in steps {
        match step {
            ShapeStep::Nothing => stack.push(MultiPolygon::new(Vec::new())),
            ShapeStep::Rings { polygons } => stack.push(to_region(polygons)),
            ShapeStep::Combine { op } => {
                let upper = stack.pop().unwrap();
                let lower = stack.pop().unwrap();
                stack.push(match op {
                    BoolOp::Union => lower.union(&upper),
                    BoolOp::Intersect => lower.intersection(&upper),
                    BoolOp::Difference => lower.xor(&upper),
                    BoolOp::Subtract => lower.difference(&upper),
                    BoolOp::Add => {
                        to_region(&joined_regions(to_polygons(&lower), to_polygons(&upper)))
                    }
                });
            }
            ShapeStep::Place { offset, center, degrees } => {
                let mut polygons = to_polygons(&stack.pop().unwrap());
                for q in &mut polygons {
                    for ring in std::iter::once(&mut q.exterior).chain(q.holes.iter_mut()) {
                        for point in ring.iter_mut() {
                            *point = point.plus(*offset).rotated(*center, *degrees);
                        }
                    }
                }
                stack.push(to_region(&polygons));
            }
        }
    }
    assert_eq!(stack.len(), 1);
    stack.pop().unwrap()
}

fn inside(region: &MultiPolygon<f64>, x: f32, y: f32) -> bool {
    region.contains(&GeoPoint::new(x as f64, y as f64))
}

fn to_color(c: Color32) -> Color {
    Color::from_rgba8(c.r, c.g, c.b, c.a)
}

fn to_sk_rect(r: Rect<R>) -> Option<SkRect> {
    SkRect::from_ltrb(r.min.x.0, r.min.y.0, r.max.x.0, r.max.y.0)
}

fn to_sk_path(outline: &Outline<R>) -> Option<Path> {
    let mut pb = PathBuilder::new();
    match outline {
        Outline::Rect(r) => pb.push_rect(to_sk_rect(*r)?),
        Outline::Oval(r) => pb.push_oval(to_sk_rect(*r)?),
        Outline::Steps(steps) => {
            for step in steps {
                match step {
                    PathStep::MoveTo(q) => pb.move_to(q.x.0, q.y.0),
                    PathStep::LineTo(q) => pb.line_to(q.x.0, q.y.0),
                    PathStep::QuadTo { control, to } => {
                        pb.quad_to(control.x.0, control.y.0, to.x.0, to.y.0)
                    }
                    PathStep::CubicTo { first, second, to } => pb.cubic_to(
                        first.x.0, first.y.0, second.x.0, second.y.0, to.x.0, to.y.0,
                    ),
                    PathStep::Close => pb.close(),
                }
            }
        }
    }
    pb.finish()
}

fn to_transform(turn: &Option<Turn<R>>) -> Transform {
    match turn {
        Some(t) => Transform::from_rotate_at(t.degrees.0, t.center.x.0, t.center.y.0),
        None => Transform::identity(),
    }
}

/// Pixels that are worked out one by one.
fn sampled(width: u32, height: u32, sample: impl Fn(Pos2<R>) -> Color32) -> Option<Pixmap> {
    let mut pixmap = Pixmap::new(width, height)?;
    for j in 0..height {
        for i in 0..width {
            let color = sample(p(i as f32 + 0.5, j as f32 + 0.5)).premultiplied();
            if let Some(px) = color.and_then(|c| PremultipliedColorU8::from_rgba(c.r, c.g, c.b, c.a)) {
                pixmap.pixels_mut()[(j * width + i) as usize] = px;
            }
        }
    }
    Some(pixmap)
}

/// A number between zero and one that depends on a lattice point and a seed.
fn lattice(x: i32, y: i32, seed: u32) -> f32 {
    let mut h = seed ^ (x as u32).wrapping_mul(0x9E37_79B9) ^ (y as u32).wrapping_mul(0x85EB_CA6B);
    h ^= h >> 15;
    h = h.wrapping_mul(0x2C1B_3C6D);
    h ^= h >> 12;
    (h & 0xFFFF) as f32 / 65535.0
}

fn noise_sample(fill: &NoiseFill<R>, at: Pos2<R>, opacity: R) -> Color32 {
    let scale = fill.scale.0.max(0.01);
    let grain = lattice((at.x.0 / scale).floor() as i32, (at.y.0 / scale).floor() as i32, fill.seed);
    let shift = (grain - 0.5) * 2.0 * fill.intensity.0 * 127.0;
    let channel = |c: u8| (c as f32 + shift).round().clamp(0.0, 255.0) as u8;
    let alpha = (fill.base.a as f32 * opacity.0).round().clamp(0.0, 255.0) as u8;
    Color32::from_rgba_unmultiplied(
        channel(fill.base.r),
        channel(fill.base.g),
        channel(fill.base.b),
        alpha,
    )
}

fn to_stops(stops: &[GradientStop<R>]) -> Vec<SkStop> {
    stops.iter().map(|s| SkStop::new(s.offset.0, to_color(s.color))).collect()
}

/// A paint for what is drawn next; `storage` keeps the pixels that it refers to.
fn to_paint<'a>(shade: &Shade<R>, storage: &'a mut Option<Pixmap>) -> Paint<'a> {
    let mut paint = Paint { anti_alias: true, ..Paint::default() };
    let point = |q: &Pos2<R>| Point::from_xy(q.x.0, q.y.0);
    let (pixmap, transform, mode, quality, opacity) = match shade {
        Shade::Flat(c) => {
            paint.set_color(to_color(*c));
            return paint;
        }
        Shade::Linear { from, to, stops } => {
            if let Some(shader) = LinearGradient::new(
                point(from),
                point(to),
                to_stops(stops),
                SpreadMode::Pad,
                Transform::identity(),
            ) {
                paint.shader = shader;
            }
            return paint;
        }
        Shade::Radial { center, radius, stops } => {
            if let Some(shader) = RadialGradient::new(
                point(center),
                0.0,
                point(center),
                radius.0,
                to_stops(stops),
                SpreadMode::Pad,
                Transform::identity(),
            ) {
                paint.shader = shader;
            }
            return paint;
        }
        Shade::Grain { fill, width, height, at, opacity } => (
            sampled(*width, *height, |q| noise_sample(fill, q, *opacity)),
            Transform::from_translate(at.x.0, at.y.0),
            SpreadMode::Pad,
            FilterQuality::Nearest,
            1.0,
        ),
        Shade::Dots { fill, width, height, at, opacity } => (
            sampled(*width, *height, |q| halftone_fill::sample(fill, q, *opacity)),
            Transform::from_translate(at.x.0, at.y.0),
            SpreadMode::Pad,
            FilterQuality::Nearest,
            1.0,
        ),
        Shade::Tiles { encoded, tile_width, at, opacity } => {
            let tile = Pixmap::decode_png(encoded).ok();
            let (w, h) = tile.as_ref().map_or((1, 1), |t| (t.width(), t.height()));
            let tile_height = tile_width.0 * (h as f32 / w as f32);
            (
                tile,
                Transform::from_translate(at.x.0, at.y.0)
                    .pre_scale(tile_width.0 / w as f32, tile_height / h as f32),
                SpreadMode::Repeat,
                FilterQuality::Bilinear,
                opacity.0,
            )
        }
    };
    if pixmap.is_some() {
        *storage = pixmap;
        if let Some(pixels) = storage.as_ref() {
            paint.shader = Pattern::new(pixels.as_ref(), mode, quality, opacity, transform);
        }
    }
    paint
}

fn fill_rect(pixmap: &mut Pixmap, rect: Rect<R>, color: Color32) {
    if let Some(sk_rect) = to_sk_rect(rect) {
        let mut paint = Paint { anti_alias: true, ..Paint::default() };
        paint.set_color(to_color(color));
        pixmap.fill_rect(sk_rect, &paint, Transform::identity(), None);
    }
}

fn draw_glyph(
    pixmap: &mut Pixmap,
    face: &FontRef,
    size: R,
    clip: Option<Rect<R>>,
    c: char,
    at: Pos2<R>,
    color: Color32,
    doubled: bool,
    italic: bool,
) {
    let (width, height) = (pixmap.width(), pixmap.height());
    let offsets: Vec<R> = glyph_offsets(doubled);
    for dx in offsets {
        let glyph = face
            .glyph_id(c)
            .with_scale_and_position(PxScale::from(size.0), ab_glyph::point(at.x.0 + dx.0, at.y.0));
        let Some(outlined) = face.outline_glyph(glyph) else { continue };
        let corner = outlined.px_bounds().min;
        outlined.draw(|gx, gy, coverage| {
            let place = place_glyph_pixel(
                (corner.x as i32).saturating_add(gx as i32),
                (corner.y as i32).saturating_add(gy as i32),
                at.y,
                italic,
                clip,
            );
            let Some(index) = place.and_then(|(x, y)| pixel_index(x, y, width, height)) else {
                return;
            };
            let under = pixmap.pixels()[index];
            let under = Color32::from_rgba_premultiplied(
                under.red(),
                under.green(),
                under.blue(),
                under.alpha(),
            );
            let over = blend_glyph_pixel(under, R(coverage), color);
            if let Some(px) = PremultipliedColorU8::from_rgba(over.r, over.g, over.b, over.a) {
                pixmap.pixels_mut()[index] = px;
            }
        });
    }
}

fn metrics_of(face: &FontRef, index: usize, size: R, content: &str) -> Metrics<R> {
    let scaled = face.as_scaled(PxScale::from(size.0));
    let mut chars: Vec<char> = vec![' '];
    for c in content.chars() {
        if !chars.contains(&c) {
            chars.push(c);
        }
    }
    Metrics {
        face: index,
        ascent: R(scaled.ascent()),
        height: R(scaled.height()),
        line_gap: R(scaled.line_gap()),
        advances: chars.iter().map(|c| R(scaled.h_advance(scaled.glyph_id(*c)))).collect(),
        kerns: chars
            .iter()
            .map(|a| {
                chars
                    .iter()
                    .map(|b| R(scaled.kern(scaled.glyph_id(*a), scaled.glyph_id(*b))))
                    .collect()
            })
            .collect(),
        chars,
    }
}

fn draw_text(pixmap: &mut Pixmap, layer: &Layer<R>, bounds: Rect<R>, opacity: R) {
    let LayerKind::Text { text } = &layer.kind else { return };
    let Some((setting, looks)) = layer_text(layer, bounds, opacity) else { return };
    let installed = vec![(None, None); text.runs.len() + 1];
    let files = choose_faces(text, &installed);
    let loaded: Vec<Option<FontRef>> = files
        .iter()
        .map(|(file, index)| FontRef::try_from_slice_and_index(font_bytes(*file), *index).ok())
        .collect();
    let read: Vec<bool> = loaded.iter().map(|face| face.is_some()).collect();
    let Some(face_of) = face_table(&read) else { return };
    let faces: Vec<FontRef> = loaded.into_iter().flatten().collect();
    let lines = tagged_lines(text);
    let shown: String = lines.iter().flatten().map(|t| t.c).collect();
    let metrics: Vec<Metrics<R>> = looks
        .iter()
        .zip(&face_of)
        .map(|(look, &i)| metrics_of(&faces[i], i, look.font_size, &shown))
        .collect();
    for ink in draw_text_rich(&metrics, &looks, setting, &lines) {
        match ink {
            TextInk::Glyph { c, style, x, baseline, color, doubled, italic, clip } => draw_glyph(
                pixmap,
                &faces[face_of[style]],
                looks[style].font_size,
                clip,
                c,
                Pos2::new(x, baseline),
                color,
                doubled || is_bold(files[style].0),
                italic,
            ),
            TextInk::Bar { rect, color } => fill_rect(pixmap, rect, color),
        }
    }
}

fn draw_image(pixmap: &mut Pixmap, layer: &Layer<R>, bounds: Rect<R>, opacity: R, degrees: R) {
    let LayerKind::Image { encoded, .. } = &layer.kind else { return };
    let Ok(source) = Pixmap::decode_png(encoded) else { return };
    let size = bounds.size();
    let mut transform = Transform::from_translate(bounds.min.x.0, bounds.min.y.0).pre_scale(
        size.x.0 / source.width() as f32,
        size.y.0 / source.height() as f32,
    );
    if degrees.0 != 0.0 {
        let center = bounds.center();
        transform = transform.post_rotate_at(degrees.0, center.x.0, center.y.0);
    }
    let paint = PixmapPaint {
        opacity: opacity.0.clamp(0.0, 1.0),
        blend_mode: BlendMode::SourceOver,
        quality: FilterQuality::Bilinear,
    };
    pixmap.draw_pixmap(0, 0, source.as_ref(), &paint, transform, None);
}

/// One pass of a blur over the rows and the columns of a field.
fn blurred(field: &[f32], width: usize, height: usize, radius: usize) -> Vec<f32> {
    let pass = |src: &[f32], horizontal: bool| -> Vec<f32> {
        let mut out = vec![0.0; src.len()];
        for y in 0..height {
            for x in 0..width {
                let (k, n) = if horizontal { (x, width) } else { (y, height) };
                let (lo, hi) = (k.saturating_sub(radius), (k + radius).min(n - 1));
                let sum: f32 = (lo..=hi)
                    .map(|i| if horizontal { src[y * width + i] } else { src[i * width + x] })
                    .sum();
                out[y * width + x] = sum / (2 * radius + 1) as f32;
            }
        }
        out
    };
    pass(&pass(field, true), false)
}

/// The shadow that a silhouette casts, and how far it is padded.
fn shadow_of(silhouette: &Pixmap, shadow: &Shadow<R>, inner: bool) -> Option<(Pixmap, i32)> {
    let pad = if inner { 0 } else { (shadow.blur.0.max(0.0) * 2.0 + shadow.spread.0.max(0.0)).ceil() as u32 };
    let (width, height) = (silhouette.width() + 2 * pad, silhouette.height() + 2 * pad);
    let (w, h) = (width as usize, height as usize);
    let mut field = vec![0.0f32; w * h];
    for y in 0..silhouette.height() {
        for x in 0..silhouette.width() {
            let alpha = silhouette.pixel(x, y).map_or(0, |px| px.alpha()) as f32 / 255.0;
            field[(y + pad) as usize * w + (x + pad) as usize] = if inner { 1.0 - alpha } else { alpha };
        }
    }
    let radius = (shadow.blur.0 / 2.0).max(0.0).round() as usize;
    for _ in 0..2 {
        field = blurred(&field, w, h, radius);
    }
    let mut pixmap = Pixmap::new(width, height)?;
    for (i, alpha) in field.iter().enumerate() {
        let hold = if inner { silhouette.pixels()[i].alpha() as f32 / 255.0 } else { 1.0 };
        let a = (shadow.color.a as f32 * alpha * hold).round().clamp(0.0, 255.0) as u8;
        let color = Color32 { a, ..shadow.color }.premultiplied();
        if let Some(px) = color.and_then(|c| PremultipliedColorU8::from_rgba(c.r, c.g, c.b, c.a)) {
            pixmap.pixels_mut()[i] = px;
        }
    }
    Some((pixmap, pad as i32))
}

fn draw_shadow(pixmap: &mut Pixmap, layer: &Layer<R>, shadow: &Shadow<R>, at: Pos2<R>, opacity: R, inner: bool) {
    let Some(silhouette) = paint_picture(layer, &render_layer_plain(layer)) else { return };
    let Some((pixels, pad)) = shadow_of(&silhouette, shadow, inner) else { return };
    let shift = if inner { v(0.0, 0.0) } else { shadow.offset };
    let place = at.plus(shift);
    let paint = PixmapPaint { opacity: opacity.0.clamp(0.0, 1.0), ..PixmapPaint::default() };
    pixmap.draw_pixmap(
        place.x.0.round() as i32 - pad,
        place.y.0.round() as i32 - pad,
        pixels.as_ref(),
        &paint,
        Transform::identity(),
        None,
    );
}

fn draw_masked(
    pixmap: &mut Pixmap,
    root: &Layer<R>,
    mask: LayerId,
    content: &[LayerId],
    offset: Vec2<R>,
    opacity: R,
    shadows: bool,
) {
    let Some(mask) = find_layer(root, mask) else { return };
    let Some(mut shape) = Pixmap::new(pixmap.width(), pixmap.height()) else { return };
    let Some(mut sheet) = Pixmap::new(pixmap.width(), pixmap.height()) else { return };
    let mut draws = Vec::new();
    draw_layer(mask, offset, R(1.0), false, &mut draws);
    run_draws(&mut shape, root, &draws);
    let mut draws = Vec::new();
    for id in content {
        if let Some(layer) = find_layer(root, *id) {
            draw_layer(layer, offset, opacity, shadows, &mut draws);
        }
    }
    run_draws(&mut sheet, root, &draws);
    sheet.apply_mask(&Mask::from_pixmap(shape.as_ref(), MaskType::Alpha));
    pixmap.draw_pixmap(0, 0, sheet.as_ref(), &PixmapPaint::default(), Transform::identity(), None);
}

fn draw_turned_text(pixmap: &mut Pixmap, layer: &Layer<R>, size: (u32, u32), bounds: Rect<R>, opacity: R, degrees: R) {
    let Some(mut sheet) = Pixmap::new(size.0, size.1) else { return };
    let local = Rect::from_min_size(p(0.0, 0.0), v(size.0 as f32, size.1 as f32));
    draw_text(&mut sheet, layer, local, R(1.0));
    let paint = PixmapPaint {
        opacity: opacity.0.clamp(0.0, 1.0),
        blend_mode: BlendMode::SourceOver,
        quality: FilterQuality::Bilinear,
    };
    let center = bounds.center();
    let transform = Transform::from_translate(bounds.min.x.0, bounds.min.y.0)
        .post_rotate_at(degrees.0, center.x.0, center.y.0);
    pixmap.draw_pixmap(0, 0, sheet.as_ref(), &paint, transform, None);
}

/// Draws one thing after another; `root` holds the layers that are referred to.
fn run_draws(pixmap: &mut Pixmap, root: &Layer<R>, draws: &[Draw<R>]) {
    for draw in draws {
        let mut storage = None;
        match draw {
            Draw::Box { rect, color } => fill_rect(pixmap, *rect, *color),
            Draw::Fill { outline, shade, even_odd, turn } => {
                if let Some(path) = to_sk_path(outline) {
                    let rule = if *even_odd { FillRule::EvenOdd } else { FillRule::Winding };
                    let paint = to_paint(shade, &mut storage);
                    pixmap.fill_path(&path, &paint, rule, to_transform(turn), None);
                }
            }
            Draw::Stroke { outline, shade, width, round, turn } => {
                if let Some(path) = to_sk_path(outline) {
                    let paint = to_paint(shade, &mut storage);
                    let stroke = SkStroke {
                        width: width.0,
                        line_cap: if *round { LineCap::Round } else { LineCap::Butt },
                        ..SkStroke::default()
                    };
                    pixmap.stroke_path(&path, &paint, &stroke, to_transform(turn), None);
                }
            }
            Draw::Text { layer, bounds, opacity } => {
                if let Some(layer) = find_layer(root, *layer) {
                    draw_text(pixmap, layer, *bounds, *opacity);
                }
            }
            Draw::TurnedText { layer, width, height, bounds, opacity, degrees } => {
                if let Some(layer) = find_layer(root, *layer) {
                    draw_turned_text(pixmap, layer, (*width, *height), *bounds, *opacity, *degrees);
                }
            }
            Draw::Image { layer, bounds, opacity, degrees } => {
                if let Some(layer) = find_layer(root, *layer) {
                    draw_image(pixmap, layer, *bounds, *opacity, *degrees);
                }
            }
            Draw::Region { layer, offset, opacity } => {
                if let Some(layer) = find_layer(root, *layer) {
                    if let LayerKind::BooleanGroup { children } = &layer.kind {
                        let polygons = to_polygons(&run(&compute_boolean_group(children)));
                        run_draws(pixmap, root, &draw_region(layer, &polygons, *offset, *opacity));
                    }
                }
            }
            Draw::Masked { mask, content, offset, opacity, shadows } => {
                draw_masked(pixmap, root, *mask, content, *offset, *opacity, *shadows);
            }
            Draw::Shadow { layer, shadow, at, opacity } => {
                if let Some(layer) = find_layer(root, *layer) {
                    draw_shadow(pixmap, layer, shadow, *at, *opacity, false);
                }
            }
            Draw::InnerShadow { layer, shadow, at, opacity } => {
                if let Some(layer) = find_layer(root, *layer) {
                    draw_shadow(pixmap, layer, shadow, *at, *opacity, true);
                }
            }
        }
    }
}

/// The pixels of a picture of a layer.
fn paint_picture(layer: &Layer<R>, picture: &Picture<R>) -> Option<Pixmap> {
    let mut pixmap = Pixmap::new(picture.width, picture.height)?;
    run_draws(&mut pixmap, layer, &picture.draws);
    Some(pixmap)
}

/// Whether a file holds a bold weight. None is built in here: the light face drawn twice stands
/// for each.
fn is_bold(file: FontFile) -> bool {
    matches!(
        file,
        FontFile::ProportionalBold
            | FontFile::MonospaceBold
            | FontFile::SerifBold
            | FontFile::DisplayBold
            | FontFile::HandwritingBold
            | FontFile::InstalledBold
    )
}

/// The bytes of a face.
fn font_bytes(file: FontFile) -> &'static [u8] {
    match file {
        FontFile::Monospace | FontFile::MonospaceBold => epaint_default_fonts::HACK_REGULAR,
        _ => epaint_default_fonts::UBUNTU_LIGHT,
    }
}

fn tagged_lines(text: &TextBlock<R>) -> Vec<Vec<Tagged>> {
    let mut run_of: Vec<Option<usize>> = Vec::new();
    for (i, run) in text.runs.iter().enumerate() {
        run_of.extend(std::iter::repeat(Some(i)).take(run.len));
    }
    let mut lines = vec![Vec::new()];
    for (i, c) in text.content.chars().enumerate() {
        if c == '\n' {
            lines.push(Vec::new());
        } else {
            lines.last_mut().unwrap().push(Tagged { c, run: run_of.get(i).copied().flatten() });
        }
    }
    lines
}

fn render(layer: &Layer<R>) -> Pixmap {
    paint_picture(layer, &render_layer(layer)).expect("should render")
}

fn draw_on(width: u32, height: u32, layer: &Layer<R>) -> Pixmap {
    let mut pixmap = Pixmap::new(width, height).unwrap();
    let mut draws = Vec::new();
    draw_layer(layer, Vec2::zero(), R(1.0), false, &mut draws);
    run_draws(&mut pixmap, layer, &draws);
    pixmap
}

fn rgba(pixmap: &Pixmap, x: u32, y: u32) -> (u8, u8, u8, u8) {
    let px = pixmap.pixel(x, y).expect("a pixel");
    (px.red(), px.green(), px.blue(), px.alpha())
}

fn alpha(pixmap: &Pixmap, x: u32, y: u32) -> u8 {
    rgba(pixmap, x, y).3
}

fn square() -> LayerKind<R> {
    LayerKind::Rectangle { corner_radius: CornerRadii::uniform(R(0.0)) }
}

fn solid(r: u8, g: u8, b: u8) -> Option<LayerPaint<R>> {
    Some(LayerPaint::Solid(Color32::from_rgb(r, g, b)))
}

fn black_stroke(width: f32) -> Option<Stroke<R>> {
    Some(Stroke { paint: LayerPaint::Solid(Color32::from_rgb(0, 0, 0)), width: R(width) })
}

fn between(x0: f32, y0: f32, x1: f32, y1: f32) -> Frame<R> {
    Frame::from_two_points(p(x0, y0), p(x1, y1))
}

fn filled(
    id: LayerId,
    name: &str,
    frame: Frame<R>,
    kind: LayerKind<R>,
    fill: Option<LayerPaint<R>>,
) -> Layer<R> {
    let mut layer = Layer::new(id, name, frame, kind);
    layer.style.fill = fill;
    layer.style.stroke = None;
    layer
}

fn corner(x: f32, y: f32, radius: f32) -> PathPoint<R> {
    PathPoint {
        anchor: p(x, y),
        handle_in: None,
        handle_out: None,
        point_type: PointType::Disconnected,
        corner_radius: R(radius),
    }
}

fn png(width: u32, height: u32, pixels: &[[u8; 4]]) -> Vec<u8> {
    let mut pixmap = Pixmap::new(width, height).unwrap();
    for (i, c) in pixels.iter().enumerate() {
        pixmap.pixels_mut()[i] = PremultipliedColorU8::from_rgba(c[0], c[1], c[2], c[3]).unwrap();
    }
    pixmap.encode_png().unwrap()
}

fn photo(frame: Frame<R>) -> Layer<R> {
    Layer::new(
        1,
        "Photo",
        frame,
        LayerKind::Image {
            encoded: png(2, 2, &[[0, 200, 0, 255]; 4]),
            version: 0,
            color_adjust: ColorAdjust {
                hue: R(0.0),
                saturation: R(0.0),
                brightness: R(0.0),
                contrast: R(0.0),
            },
            width: 2,
            height: 2,
        },
    )
}

#[test]
fn renders_image_layer_scaled_to_its_frame() {
    let pixmap = render(&photo(between(0.0, 0.0, 40.0, 20.0)));
    assert_eq!((pixmap.width(), pixmap.height()), (40, 20));
    assert_eq!(rgba(&pixmap, 20, 10), (0, 200, 0, 255));
}

#[test]
fn exported_layer_with_drop_shadow_is_padded_and_shows_shadow_past_its_edge() {
    let mut layer =
        filled(1, "Rect", between(0.0, 0.0, 40.0, 40.0), square(), solid(255, 0, 0));
    layer.style.shadows = vec![Shadow {
        color: Color32::from_rgb(0, 0, 0),
        offset: Vec2::zero(),
        blur: R(10.0),
        spread: R(0.0),
    }];

    let pixmap = render(&layer);
    assert!(
        pixmap.width() > 40 && pixmap.height() > 40,
        "padded export should be larger than the shape's own 40x40 frame"
    );

    let pad = ((pixmap.width() - 40) / 2) as i32;
    // A couple pixels above the shape's top edge (still inside the
    // padded canvas) should show blurred shadow, not full transparency.
    let x = pixmap.width() as i32 / 2;
    let y = (pad - 3).max(0);
    assert!(
        alpha(&pixmap, x as u32, y as u32) > 0,
        "blurred shadow should be visible just outside the shape's own edge"
    );

    // The shape's own center is still the plain red fill, unaffected.
    let center = rgba(&pixmap, (pad + 20) as u32, (pad + 20) as u32);
    assert_eq!((center.0, center.1, center.2), (255, 0, 0));
}

#[test]
fn renders_filled_rect_at_correct_size_and_color() {
    let layer = filled(1, "Rect", between(10.0, 10.0, 50.0, 30.0), square(), solid(255, 0, 0));
    let pixmap = render(&layer);
    assert_eq!(pixmap.width(), 40);
    assert_eq!(pixmap.height(), 20);
    assert_eq!(rgba(&pixmap, 20, 10), (255, 0, 0, 255));
    assert_eq!(alpha(&pixmap, 0, 0), 255);
}

#[test]
fn fill_opacity_and_stroke_opacity_scale_alpha_independently_of_each_other() {
    let mut layer = filled(1, "Rect", between(0.0, 0.0, 40.0, 40.0), square(), solid(255, 0, 0));
    layer.style.stroke =
        Some(Stroke { paint: LayerPaint::Solid(Color32::from_rgb(0, 0, 255)), width: R(4.0) });
    layer.style.fill_opacity = R(0.5);
    layer.style.stroke_opacity = R(1.0);

    let pixmap = render(&layer);
    let fill = alpha(&pixmap, 20, 20);
    assert!((fill as i32 - 127).abs() <= 2, "expected ~50% alpha from fill_opacity, got {fill}");
    assert_eq!(alpha(&pixmap, 1, 20), 255, "stroke_opacity=1.0 should stay fully opaque");
}

#[test]
fn renders_star_filled_at_center_but_not_at_the_bounding_boxs_corner() {
    let kind = LayerKind::Star { points: 5, inner_ratio: R(0.5) };
    let layer = filled(1, "Star", between(0.0, 0.0, 40.0, 40.0), kind, solid(255, 200, 0));
    let pixmap = render(&layer);
    assert_eq!(rgba(&pixmap, 20, 20), (255, 200, 0, 255));
    assert_eq!(alpha(&pixmap, 1, 1), 0);
}

#[test]
fn renders_regular_polygon_filled_at_center() {
    let kind = LayerKind::Polygon { sides: 6 };
    let layer = filled(1, "Hexagon", between(0.0, 0.0, 40.0, 40.0), kind, solid(0, 100, 255));
    let pixmap = render(&layer);
    assert_eq!(rgba(&pixmap, 20, 20), (0, 100, 255, 255));
    assert_eq!(alpha(&pixmap, 1, 1), 0);
}

#[test]
fn renders_arrow_with_no_caps_matches_plain_line() {
    let kind = LayerKind::Arrow { start_cap: ArrowCap::Bare, end_cap: ArrowCap::Bare };
    let mut layer = filled(1, "Arrow", between(0.0, 20.0, 40.0, 20.0), kind, None);
    layer.style.stroke = black_stroke(2.0);
    let pixmap = draw_on(40, 40, &layer);
    assert_eq!(alpha(&pixmap, 20, 20), 255);
    assert_eq!(alpha(&pixmap, 20, 5), 0);
}

#[test]
fn renders_arrow_with_triangle_end_cap_wider_than_the_shaft() {
    let kind = LayerKind::Arrow { start_cap: ArrowCap::Bare, end_cap: ArrowCap::Triangle };
    let mut layer = filled(1, "Arrow", between(0.0, 20.0, 40.0, 20.0), kind, None);
    layer.style.stroke = black_stroke(6.0);
    let pixmap = draw_on(40, 40, &layer);
    // Inside the wing of the triangle, outside the shaft's own stroke.
    assert!(
        alpha(&pixmap, 25, 15) > 0,
        "triangle cap should extend beyond the shaft's stroke width"
    );
    assert_eq!(alpha(&pixmap, 5, 5), 0);
}

#[test]
fn zero_rotation_rectangle_renders_identically_to_unrotated_path() {
    let kind = LayerKind::Rectangle { corner_radius: CornerRadii::uniform(R(8.0)) };
    let layer = filled(1, "Rect", between(0.0, 0.0, 40.0, 40.0), kind, solid(10, 20, 30));
    let pixmap = render(&layer);
    assert_eq!(rgba(&pixmap, 20, 20), (10, 20, 30, 255));
    assert_eq!(alpha(&pixmap, 0, 0), 0);
}

#[test]
fn independent_corner_radii_round_only_the_corners_given_a_nonzero_radius() {
    let kind = LayerKind::Rectangle {
        corner_radius: CornerRadii {
            top_left: R(12.0),
            top_right: R(0.0),
            bottom_right: R(0.0),
            bottom_left: R(0.0),
        },
    };
    let layer = filled(1, "Rect", between(0.0, 0.0, 40.0, 40.0), kind, solid(10, 20, 30));
    let pixmap = render(&layer);
    assert_eq!(alpha(&pixmap, 0, 0), 0);
    for (x, y) in [(39, 0), (0, 39), (39, 39)] {
        assert_eq!(alpha(&pixmap, x, y), 255, "expected corner ({x}, {y}) to be filled");
    }
}

#[test]
fn rotated_square_fills_center_but_not_the_new_bounding_boxs_corner() {
    let frame = Frame { pos: p(0.0, 0.0), size: v(20.0, 20.0), rotation: R(45.0) };
    let pixmap = render(&filled(1, "Rect", frame, square(), solid(200, 0, 0)));
    assert_eq!((pixmap.width(), pixmap.height()), (28, 28));
    assert_eq!(rgba(&pixmap, 14, 14), (200, 0, 0, 255));
    assert_eq!(alpha(&pixmap, 0, 0), 0);
}

#[test]
fn rotated_image_export_pixmap_is_sized_to_rotated_bounds_not_clipped() {
    let frame = Frame { pos: p(0.0, 0.0), size: v(40.0, 20.0), rotation: R(90.0) };
    let pixmap = render(&photo(frame));
    assert_eq!((pixmap.width(), pixmap.height()), (20, 40));
    assert_eq!(rgba(&pixmap, 10, 20), (0, 200, 0, 255));
}

#[test]
fn artboard_background_fills_whole_canvas_and_children_are_offset() {
    let child = filled(1, "Child", between(5.0, 5.0, 15.0, 15.0), square(), solid(0, 255, 0));
    let mut artboard = new_artboard(2, "Board", between(0.0, 0.0, 30.0, 30.0));
    if let LayerKind::Artboard { children, background } = &mut artboard.kind {
        *background = Color32::from_rgb(255, 255, 255);
        children.push(child);
    }
    let pixmap = render(&artboard);
    assert_eq!((pixmap.width(), pixmap.height()), (30, 30));
    let ground = rgba(&pixmap, 1, 1);
    assert_eq!((ground.0, ground.1, ground.2), (255, 255, 255));
    let inner = rgba(&pixmap, 10, 10);
    assert_eq!((inner.0, inner.1, inner.2), (0, 255, 0));
}

#[test]
fn renders_closed_path_as_filled_polygon() {
    let points = vec![corner(0.0, 0.0, 0.0), corner(40.0, 0.0, 0.0), corner(0.0, 40.0, 0.0)];
    let kind = LayerKind::Path { points, closed: true };
    let pixmap = render(&filled(1, "Path", between(0.0, 0.0, 40.0, 40.0), kind, solid(0, 0, 255)));
    assert_eq!(rgba(&pixmap, 5, 5), (0, 0, 255, 255));
    assert_eq!(alpha(&pixmap, 35, 35), 0);
}

#[test]
fn exported_png_rounds_a_path_corner() {
    let points = vec![
        corner(0.0, 0.0, 0.0),
        corner(40.0, 0.0, 15.0),
        corner(40.0, 40.0, 0.0),
        corner(0.0, 40.0, 0.0),
    ];
    let kind = LayerKind::Path { points, closed: true };
    let pixmap = render(&filled(1, "Path", between(0.0, 0.0, 40.0, 40.0), kind, solid(0, 0, 255)));
    assert_eq!(alpha(&pixmap, 20, 20), 255);
    assert_eq!(alpha(&pixmap, 39, 0), 0, "rounded corner should not be filled");
}

#[test]
fn open_path_with_two_points_is_not_dropped() {
    let kind =
        LayerKind::Path { points: vec![corner(0.0, 2.0, 0.0), corner(20.0, 2.0, 0.0)], closed: false };
    let mut layer = filled(1, "Path", between(0.0, 0.0, 20.0, 4.0), kind, None);
    layer.style.stroke =
        Some(Stroke { paint: LayerPaint::Solid(Color32::from_rgb(255, 0, 0)), width: R(2.0) });
    assert_eq!(alpha(&render(&layer), 10, 2), 255);
}

/// Combines two layers of a page into one path.
fn combined(a: Layer<R>, b: Layer<R>, op: BoolOp) -> (Page<R>, LayerId) {
    let mut page = Page::new("Test");
    let ids = [a.id, b.id];
    page.layers.push(a);
    page.layers.push(b);
    let mut source = IdSource::starting_at(100);
    let program = boolean_op_program(&page, &ids, op).expect("both can be combined");
    let result = to_polygons(&run(&program));
    let id = apply_boolean_op(&mut page, &ids, op, &result, &mut source)
        .expect("should produce a layer");
    (page, id)
}

/// Puts two layers of a page into a boolean group.
fn grouped(a: Layer<R>, b: Layer<R>, op: BoolOp) -> (Page<R>, LayerId) {
    let mut page = Page::new("Test");
    let ids = [a.id, b.id];
    page.layers.push(a);
    page.layers.push(b);
    let mut source = IdSource::starting_at(100);
    let id = create_boolean_group(&mut page, &ids, op, &mut source).expect("should group");
    (page, id)
}

#[test]
fn boolean_union_of_two_overlapping_stars_produces_one_merged_layer() {
    let star = || LayerKind::Star { points: 5, inner_ratio: R(0.5) };
    let (page, id) = combined(
        filled(1, "A", between(0.0, 0.0, 40.0, 40.0), star(), solid(0, 200, 0)),
        filled(2, "B", between(10.0, 10.0, 50.0, 50.0), star(), solid(0, 200, 0)),
        BoolOp::Union,
    );
    assert_eq!(page.layers.len(), 1, "originals should be replaced by the merged layer");
    let merged = page.find(id).expect("merged layer should be findable");
    assert!(matches!(merged.kind, LayerKind::CompoundPath { .. }));
}

#[test]
fn boolean_union_of_two_overlapping_rects_fills_both_and_replaces_originals() {
    let (page, id) = combined(
        filled(1, "A", between(0.0, 0.0, 40.0, 40.0), square(), solid(0, 200, 0)),
        filled(2, "B", between(20.0, 20.0, 60.0, 60.0), square(), solid(0, 200, 0)),
        BoolOp::Union,
    );
    assert_eq!(page.layers.len(), 1, "originals should be replaced by the merged layer");
    let merged = page.find(id).expect("merged layer should be findable");
    assert!(matches!(merged.kind, LayerKind::CompoundPath { .. }));
    let pixmap = render(merged);
    assert_eq!(alpha(&pixmap, 5, 5), 255, "point only inside A should be filled");
    assert_eq!(alpha(&pixmap, 55, 55), 255, "point only inside B should be filled");
    assert_eq!(alpha(&pixmap, 25, 25), 255, "overlap point should be filled");
    assert_eq!(alpha(&pixmap, 2, 58), 0, "point outside both rects should be transparent");
}

#[test]
fn boolean_union_respects_a_rotated_operands_actual_footprint() {
    let turned = Frame { pos: p(0.0, 0.0), size: v(40.0, 10.0), rotation: R(90.0) };
    let inside = Frame { pos: p(16.0, -14.0), size: v(8.0, 4.0), rotation: R(0.0) };
    let (page, id) = combined(
        filled(1, "A", turned, square(), solid(0, 200, 0)),
        filled(2, "B", inside, square(), solid(0, 200, 0)),
        BoolOp::Union,
    );
    let bounds = page.find(id).expect("merged layer should be findable").frame.bounds();
    assert!((bounds.width().0 - 10.0).abs() < 1.0, "width={:?}", bounds.width());
    assert!((bounds.height().0 - 40.0).abs() < 1.0, "height={:?}", bounds.height());
}

#[test]
fn boolean_subtract_punches_a_hole() {
    let (page, id) = combined(
        filled(1, "Base", between(0.0, 0.0, 60.0, 60.0), square(), solid(200, 0, 0)),
        filled(2, "Hole", between(20.0, 20.0, 40.0, 40.0), square(), solid(200, 0, 0)),
        BoolOp::Subtract,
    );
    let pixmap = render(page.find(id).expect("merged layer should be findable"));
    assert_eq!(alpha(&pixmap, 30, 30), 0, "the subtracted region should be transparent");
    assert_eq!(alpha(&pixmap, 5, 5), 255, "the rest of the base should still be filled");
}

#[test]
fn boolean_group_renders_live_from_still_editable_children() {
    let (page, id) = grouped(
        filled(1, "A", between(0.0, 0.0, 40.0, 40.0), square(), solid(0, 200, 0)),
        filled(2, "B", between(20.0, 20.0, 60.0, 60.0), square(), solid(0, 0, 200)),
        BoolOp::Union,
    );
    let group = page.find(id).expect("group should be findable");
    let LayerKind::BooleanGroup { children } = &group.kind else { unreachable!() };
    assert_eq!(children.len(), 2);
    assert!(matches!(children[0].kind, LayerKind::Rectangle { .. }));
    assert!(matches!(children[1].kind, LayerKind::Rectangle { .. }));
    let pixmap = render(group);
    assert_eq!(alpha(&pixmap, 5, 5), 255, "point only inside A should be filled");
    assert_eq!(alpha(&pixmap, 55, 55), 255, "point only inside B should be filled");
    assert_eq!(alpha(&pixmap, 2, 58), 0, "point outside both rects should be transparent");
}

#[test]
fn boolean_group_excludes_hidden_children_from_the_live_result() {
    let (mut page, id) = grouped(
        filled(1, "Base", between(0.0, 0.0, 40.0, 40.0), square(), solid(0, 200, 0)),
        filled(2, "Extra", between(60.0, 0.0, 80.0, 20.0), square(), solid(0, 200, 0)),
        BoolOp::Union,
    );
    let group = page.find_mut(id).expect("group should be findable");
    let LayerKind::BooleanGroup { children } = &mut group.kind else { unreachable!() };
    children[1].visible = false;
    let pixmap = render(page.find(id).expect("group should be findable"));
    assert_eq!(alpha(&pixmap, 5, 5), 255, "visible base child should still render");
    assert_eq!(alpha(&pixmap, 65, 5), 0, "hidden child should not contribute");
}

#[test]
fn boolean_group_add_of_overlapping_rects_shows_an_even_odd_hole_in_the_overlap() {
    let (page, id) = grouped(
        filled(1, "A", between(0.0, 0.0, 40.0, 40.0), square(), solid(0, 200, 0)),
        filled(2, "B", between(20.0, 20.0, 60.0, 60.0), square(), solid(0, 200, 0)),
        BoolOp::Add,
    );
    let pixmap = render(page.find(id).expect("group should be findable"));
    assert_eq!(alpha(&pixmap, 5, 5), 255, "region only covered by A should be filled");
    assert_eq!(alpha(&pixmap, 25, 25), 0, "overlap region should be an even-odd hole");
}

fn text_layer(content: &str, font_size: f32, w: f32, h: f32, align: TextAlign) -> Layer<R> {
    let mut text = TextBlock::plain(content.to_string(), R(font_size));
    text.align = align;
    text.vertical_align = VerticalAlign::Top;
    text.resize = TextResize::Fixed;
    filled(1, "Text", between(0.0, 0.0, w, h), LayerKind::Text { text }, solid(0, 0, 0))
}

fn text_mut(layer: &mut Layer<R>) -> &mut TextBlock<R> {
    let LayerKind::Text { text } = &mut layer.kind else { unreachable!() };
    text
}

fn opaque_pixel_count(pixmap: &Pixmap) -> usize {
    pixmap.pixels().iter().filter(|px| px.alpha() > 0).count()
}

fn opaque_in_rows(pixmap: &Pixmap, y0: u32, y1: u32) -> bool {
    (0..pixmap.width()).any(|x| (y0..y1.min(pixmap.height())).any(|y| alpha(pixmap, x, y) > 0))
}

#[test]
fn renders_text_glyphs_as_opaque_pixels_on_transparent_background() {
    let pixmap = render(&text_layer("W", 32.0, 120.0, 40.0, TextAlign::Left));
    assert!(opaque_pixel_count(&pixmap) > 0, "expected at least one covered pixel");
}

#[test]
fn system_font_not_installed_falls_back_to_proportional_instead_of_drawing_nothing() {
    let mut layer = text_layer("W", 32.0, 120.0, 40.0, TextAlign::Left);
    text_mut(&mut layer).font =
        TextFont::System("Definitely Not An Installed Font Xyzzy".to_string());
    let pixmap = render(&layer);
    assert!(opaque_pixel_count(&pixmap) > 0, "should fall back, not draw nothing");
    let plain = render(&text_layer("W", 32.0, 120.0, 40.0, TextAlign::Left));
    assert_eq!(pixmap.data(), plain.data());
}

#[test]
fn right_aligned_text_hugs_the_right_edge_of_the_frame() {
    let pixmap = render(&text_layer("W", 32.0, 200.0, 40.0, TextAlign::Right));
    let max_covered_x = (0..pixmap.width())
        .filter(|&x| (0..pixmap.height()).any(|y| alpha(&pixmap, x, y) > 0))
        .max()
        .expect("glyph should cover some pixel");
    assert!(
        max_covered_x as f32 > pixmap.width() as f32 * 0.7,
        "right-aligned glyph should sit near the right edge, got {max_covered_x}"
    );
}

/// Metrics in which every listed character has its own advance.
fn flat_metrics(advances: &[(char, f32)]) -> Metrics<R> {
    let n = advances.len();
    Metrics {
        face: 0,
        ascent: R(8.0),
        height: R(10.0),
        line_gap: R(0.0),
        chars: advances.iter().map(|a| a.0).collect(),
        advances: advances.iter().map(|a| R(a.1)).collect(),
        kerns: vec![vec![R(0.0); n]; n],
    }
}

fn tagged(text: &str) -> Vec<Tagged> {
    text.chars().map(|c| Tagged { c, run: None }).collect()
}

fn untagged(rows: Vec<Vec<Tagged>>) -> Vec<String> {
    rows.iter().map(|r| r.iter().map(|t| t.c).collect()).collect()
}

#[test]
fn wrap_line_breaks_at_word_boundaries_within_max_width() {
    let m = vec![flat_metrics(&[(' ', 10.0), ('a', 10.0), ('b', 10.0), ('c', 10.0)])];
    // "aaa bbb" is 70px (fits in 71); adding " ccc" would be 110px (doesn't).
    let lines = wrap_line(&m, &tagged("aaa bbb ccc"), R(0.0), R(10.0), Some(R(71.0)));
    assert_eq!(untagged(lines), vec!["aaa bbb".to_string(), "ccc".to_string()]);
}

#[test]
fn wrap_line_leaves_auto_width_text_on_one_line() {
    let m = vec![flat_metrics(&[(' ', 10.0), ('a', 10.0), ('b', 10.0), ('c', 10.0)])];
    let lines = wrap_line(&m, &tagged("aaa bbb ccc"), R(0.0), R(10.0), None);
    assert_eq!(untagged(lines), vec!["aaa bbb ccc".to_string()]);
}

#[test]
fn underline_and_strikethrough_add_extra_opaque_pixels() {
    let without_decoration = text_layer("I", 32.0, 120.0, 60.0, TextAlign::Left);
    let mut with_underline = without_decoration.duplicate();
    let mut with_strikethrough = without_decoration.duplicate();
    text_mut(&mut with_underline).underline = true;
    text_mut(&mut with_strikethrough).strikethrough = true;

    let base = opaque_pixel_count(&render(&without_decoration));
    let underlined = opaque_pixel_count(&render(&with_underline));
    let struck = opaque_pixel_count(&render(&with_strikethrough));
    assert!(underlined > base, "underline should add extra opaque pixels below the glyph");
    assert!(struck > base, "strikethrough should add extra opaque pixels through the glyph");
}

#[test]
fn fixed_width_box_wraps_long_content_onto_a_second_line() {
    let pixmap = render(&text_layer("aaaaaaaa bbbbbbbb", 24.0, 70.0, 80.0, TextAlign::Left));
    assert!(opaque_in_rows(&pixmap, 0, 30), "expected a first line near the top");
    assert!(
        opaque_in_rows(&pixmap, pixmap.height() / 2, pixmap.height()),
        "a wrapped second line should reach the lower half"
    );
}

#[test]
fn justified_non_last_line_stretches_further_right_than_left_aligned() {
    let left = render(&text_layer("aaaa bbbb cccc", 24.0, 100.0, 150.0, TextAlign::Left));
    let justify = render(&text_layer("aaaa bbbb cccc", 24.0, 100.0, 150.0, TextAlign::Justify));
    let max_x_in_top_quarter = |pixmap: &Pixmap| {
        (0..pixmap.width())
            .filter(|&x| (0..pixmap.height() / 4).any(|y| alpha(pixmap, x, y) > 0))
            .max()
            .unwrap_or(0)
    };
    let left_max = max_x_in_top_quarter(&left);
    let justify_max = max_x_in_top_quarter(&justify);
    assert!(
        justify_max > left_max,
        "justified first line ({justify_max}) should stretch further right than {left_max}"
    );
}

fn run_style(font_size: f32) -> RunStyle<R> {
    RunStyle {
        font: TextFont::Proportional,
        font_size: R(font_size),
        color: None,
        bold: false,
        italic: false,
        underline: false,
        strikethrough: false,
    }
}

#[test]
fn rich_text_second_run_color_shows_up_distinct_from_the_first() {
    let mut layer = text_layer("AABB", 40.0, 120.0, 60.0, TextAlign::Left);
    text_mut(&mut layer).runs = vec![
        TextRun { len: 2, style: run_style(40.0) },
        TextRun {
            len: 2,
            style: RunStyle { color: Some(Color32::from_rgb(220, 20, 20)), ..run_style(40.0) },
        },
    ];
    let pixmap = render(&layer);
    let mut saw_black = false;
    let mut saw_red = false;
    for px in pixmap.pixels() {
        if px.alpha() == 0 {
            continue;
        }
        if px.red() > 150 && px.green() < 80 && px.blue() < 80 {
            saw_red = true;
        } else if px.red() < 80 && px.green() < 80 && px.blue() < 80 {
            saw_black = true;
        }
    }
    assert!(saw_black, "expected the first (default black) run to render");
    assert!(saw_red, "expected the second run's color override to render");
}

#[test]
fn rich_text_run_bold_thickens_strokes_same_as_whole_layer_bold() {
    let plain = text_layer("W", 40.0, 80.0, 60.0, TextAlign::Left);
    let mut whole_layer_bold = plain.duplicate();
    text_mut(&mut whole_layer_bold).bold = true;
    let mut run_bold = plain.duplicate();
    text_mut(&mut run_bold).runs =
        vec![TextRun { len: 1, style: RunStyle { bold: true, ..run_style(40.0) } }];

    let plain_count = opaque_pixel_count(&render(&plain));
    let whole_bold_count = opaque_pixel_count(&render(&whole_layer_bold));
    let run_bold_count = opaque_pixel_count(&render(&run_bold));

    assert!(
        whole_bold_count > plain_count,
        "whole-layer bold (faux double-draw) should thicken the glyph"
    );
    assert!(
        run_bold_count > plain_count,
        "a bold run (real bold-weight face) should thicken the glyph too"
    );
}

#[test]
fn bold_runs_have_bold_faces_and_uniform_bold_has_none() {
    let mut layer = text_layer("ab", 40.0, 80.0, 60.0, TextAlign::Left);
    let text = text_mut(&mut layer);
    text.bold = true;
    assert_eq!(choose_faces(text, &vec![(None, None)]), vec![(FontFile::Proportional, 0)]);
    text.runs = vec![TextRun { len: 1, style: RunStyle { bold: true, ..run_style(40.0) } }];
    text.runs[0].style.font = TextFont::System("Some Family".to_string());
    assert_eq!(
        choose_faces(text, &vec![(None, None), (Some(3), None)]),
        vec![(FontFile::ProportionalBold, 0), (FontFile::Installed, 3)]
    );
    assert_eq!(
        choose_faces(text, &vec![(None, None), (Some(3), Some(5))])[1],
        (FontFile::InstalledBold, 5)
    );
    assert_eq!(face_table(&vec![true, false, true]), Some(vec![0, 0, 1]));
    assert_eq!(face_table(&vec![false, true]), None);
}

#[test]
fn rich_text_wraps_when_a_run_font_size_makes_a_word_too_wide() {
    let m = vec![
        flat_metrics(&[(' ', 10.0), ('a', 10.0), ('b', 10.0)]),
        flat_metrics(&[(' ', 20.0), ('a', 20.0), ('b', 20.0)]),
    ];
    let line: Vec<Tagged> = "aa bb"
        .chars()
        .map(|c| Tagged { c, run: if c == 'a' { Some(0) } else { None } })
        .collect();
    // "aa" (run 0) alone is 40px; "bb" alone is 20px; joined with a
    // 10px space that's 70px, over a 45px width.
    let wrapped = wrap_line(&m, &line, R(0.0), R(10.0), Some(R(45.0)));
    assert_eq!(wrapped.len(), 2, "expected the run's larger characters to force a wrap");
}

#[test]
fn rich_text_wraps_visibly_onto_a_second_line_when_forced() {
    let mut layer = text_layer("aaaaaaaa bbbbbbbb", 24.0, 70.0, 80.0, TextAlign::Left);
    text_mut(&mut layer).runs = vec![
        TextRun { len: "aaaaaaaa ".chars().count(), style: run_style(24.0) },
        TextRun { len: "bbbbbbbb".chars().count(), style: run_style(24.0) },
    ];
    let pixmap = render(&layer);
    assert!(opaque_in_rows(&pixmap, 0, pixmap.height() / 2), "expected a first wrapped line");
    assert!(
        opaque_in_rows(&pixmap, pixmap.height() / 2, pixmap.height()),
        "expected content wrapped onto a second line"
    );
}

fn gradient(kind: GradientKind, from: Pos2<R>, to: Pos2<R>, a: Color32, b: Color32) -> LayerPaint<R> {
    LayerPaint::Gradient(Gradient {
        kind,
        from,
        to,
        stops: vec![
            GradientStop { offset: R(0.0), color: a },
            GradientStop { offset: R(1.0), color: b },
        ],
    })
}

fn red_to_blue() -> LayerPaint<R> {
    gradient(
        GradientKind::Linear,
        p(0.0, 0.5),
        p(1.0, 0.5),
        Color32::from_rgb(255, 0, 0),
        Color32::from_rgb(0, 0, 255),
    )
}

#[test]
fn linear_gradient_fill_interpolates_left_to_right() {
    let frame = between(0.0, 0.0, 100.0, 20.0);
    let pixmap = render(&filled(1, "Rect", frame, square(), Some(red_to_blue())));
    let left = rgba(&pixmap, 1, 10);
    let right = rgba(&pixmap, 98, 10);
    assert!(left.0 > 200 && left.2 < 50, "left edge should be near the start color (red)");
    assert!(right.2 > 200 && right.0 < 50, "right edge should be near the end color (blue)");
}

#[test]
fn radial_gradient_fill_is_brightest_at_center() {
    let fill = gradient(
        GradientKind::Radial,
        p(0.5, 0.5),
        p(1.0, 0.5),
        Color32::from_rgb(255, 255, 255),
        Color32::from_rgb(0, 0, 0),
    );
    let frame = between(0.0, 0.0, 80.0, 80.0);
    let pixmap = render(&filled(1, "Oval", frame, LayerKind::Oval, Some(fill)));
    let center = rgba(&pixmap, 40, 40);
    let edge = rgba(&pixmap, 40, 41 + 38);
    assert!(center.0 > edge.0, "radial gradient should be brightest at its center");
}

#[test]
fn gradient_stroke_interpolates_along_a_line() {
    let mut layer = filled(1, "Line", between(0.0, 0.0, 100.0, 0.0), LayerKind::Line, None);
    layer.style.stroke = Some(Stroke { paint: red_to_blue(), width: R(6.0) });
    let pixmap = render(&layer);
    let left = rgba(&pixmap, 2, pixmap.height() / 2);
    let right = rgba(&pixmap, pixmap.width() - 3, pixmap.height() / 2);
    assert!(left.0 > 200 && left.2 < 50, "stroke start should be near the start color (red)");
    assert!(right.2 > 200 && right.0 < 50, "stroke end should be near the end color (blue)");
}

fn noise_rect_layer(seed: u32) -> Layer<R> {
    let fill = LayerPaint::Noise(NoiseFill {
        base: Color32::from_rgb(128, 128, 128),
        intensity: R(0.8),
        scale: R(3.0),
        seed,
    });
    filled(1, "Rect", between(0.0, 0.0, 60.0, 60.0), square(), Some(fill))
}

fn distinct_colors(pixmap: &Pixmap) -> usize {
    let mut colors: Vec<[u8; 4]> =
        pixmap.pixels().iter().map(|q| [q.red(), q.green(), q.blue(), q.alpha()]).collect();
    colors.sort();
    colors.dedup();
    colors.len()
}

#[test]
fn noise_fill_renders_grain_not_a_flat_color() {
    assert!(distinct_colors(&render(&noise_rect_layer(7))) > 1, "noise should vary");
}

#[test]
fn noise_fill_is_deterministic_for_the_same_seed() {
    let a = render(&noise_rect_layer(7));
    let b = render(&noise_rect_layer(7));
    assert_eq!(a.data(), b.data(), "the same seed should always render the same grain pattern");
}

#[test]
fn noise_fill_differs_across_seeds() {
    let a = render(&noise_rect_layer(7));
    let b = render(&noise_rect_layer(8));
    assert_ne!(a.data(), b.data(), "different seeds should render different grain patterns");
}

#[test]
fn halftone_fill_renders_a_dot_grid_not_a_flat_color() {
    let fill = LayerPaint::Halftone(HalftoneFill {
        background: Color32::from_rgb(255, 255, 255),
        dot: Color32::from_rgb(0, 0, 0),
        scale: R(10.0),
        coverage: R(0.8),
    });
    let layer = filled(1, "Rect", between(0.0, 0.0, 60.0, 60.0), square(), Some(fill));
    assert!(distinct_colors(&render(&layer)) > 1, "halftone should show dots and background");
}

fn pattern_rect_layer(tile_width: f32) -> Layer<R> {
    let fill = LayerPaint::Pattern(PatternFill {
        encoded: png(2, 1, &[[255, 0, 0, 255], [0, 0, 255, 255]]),
        tile_width: R(tile_width),
    });
    filled(1, "Rect", between(0.0, 0.0, 80.0, 20.0), square(), Some(fill))
}

#[test]
fn pattern_fill_contains_the_tile_images_colors() {
    let pixmap = render(&pattern_rect_layer(20.0));
    let has_reddish = pixmap.pixels().iter().any(|q| q.red() > 150 && q.blue() < 100);
    let has_blueish = pixmap.pixels().iter().any(|q| q.blue() > 150 && q.red() < 100);
    assert!(has_reddish && has_blueish, "pattern fill should contain both colors");
}

#[test]
fn pattern_fill_tiles_the_same_color_reappears_at_tile_width_offset() {
    let tile_width = 20.0;
    let pixmap = render(&pattern_rect_layer(tile_width));
    let y = pixmap.height() / 2;
    let first = rgba(&pixmap, 2, y);
    let second = rgba(&pixmap, 2 + tile_width as u32, y);
    assert!(first.0 > 150 && first.2 < 100, "first tile should start reddish");
    assert!(second.0 > 150 && second.2 < 100, "second tile should also start reddish");
}

#[test]
fn hidden_layers_and_masked_content_stay_unpainted() {
    let mut hidden = filled(1, "Hidden", between(0.0, 0.0, 20.0, 20.0), square(), solid(9, 9, 9));
    hidden.visible = false;
    assert_eq!(opaque_pixel_count(&render(&hidden)), 0);

    let content = filled(1, "Content", between(0.0, 0.0, 40.0, 40.0), square(), solid(0, 200, 0));
    let mut mask = filled(2, "Mask", between(0.0, 0.0, 10.0, 40.0), square(), solid(0, 0, 0));
    mask.is_mask = true;
    let group = Layer::new(
        3,
        "Group",
        between(0.0, 0.0, 40.0, 40.0),
        LayerKind::Group { children: vec![content, mask] },
    );
    let pixmap = render(&group);
    assert_eq!(alpha(&pixmap, 30, 20), 0, "outside the mask nothing is shown");
    assert_eq!(rgba(&pixmap, 5, 20), (0, 200, 0, 255));
}

#[test]
fn an_inner_shadow_stays_inside_its_layer() {
    let mut layer = filled(1, "Rect", between(0.0, 0.0, 40.0, 40.0), square(), solid(255, 255, 255));
    layer.style.inner_shadows = vec![Shadow {
        color: Color32::from_rgb(0, 0, 0),
        offset: Vec2::zero(),
        blur: R(4.0),
        spread: R(0.0),
    }];
    let pixmap = render(&layer);
    assert_eq!((pixmap.width(), pixmap.height()), (40, 40));
}

#[test]
fn glyphs_of_fixed_text_are_cut_to_their_box() {
    let m = vec![flat_metrics(&[('a', 10.0)])];
    let bounds = Rect::from_min_size(p(0.0, 0.0), v(15.0, 8.0));
    for (resize, cut) in
        [(TextResize::Fixed, Some(bounds)), (TextResize::AutoHeight, None), (TextResize::Auto, None)]
    {
        let mut layer = text_layer("aa", 10.0, 15.0, 8.0, TextAlign::Left);
        text_mut(&mut layer).resize = resize;
        let (setting, looks) = layer_text(&layer, bounds, R(1.0)).unwrap();
        let inks = draw_text_rich(&m, &looks, setting, &vec![tagged("aa")]);
        assert_eq!(inks.len(), 2);
        for ink in inks {
            match ink {
                TextInk::Glyph { clip, .. } => assert_eq!(clip, cut),
                TextInk::Bar { .. } => unreachable!(),
            }
        }
    }
}

#[test]
fn wrapped_rows_take_every_word_that_fits() {
    let m = vec![flat_metrics(&[(' ', 10.0), ('a', 10.0), ('b', 10.0)])];
    let rows = |max: f32| {
        untagged(wrap_line(&m, &tagged("a bb a  bbb a"), R(0.0), R(10.0), Some(R(max))))
    };
    assert_eq!(rows(40.0), vec!["a bb".to_string(), "a".to_string(), "bbb".to_string(), "a".to_string()]);
    assert_eq!(rows(60.0), vec!["a bb a".to_string(), "bbb a".to_string()]);
    assert_eq!(rows(59.0), vec!["a bb".to_string(), "a bbb".to_string(), "a".to_string()]);
}

#[test]
fn glyphs_of_doubled_text_are_drawn_a_second_time_beside_themselves() {
    let once: Vec<R> = glyph_offsets(false);
    let twice: Vec<R> = glyph_offsets(true);
    assert_eq!(once, vec![R(0.0)]);
    assert_eq!(twice, vec![R(0.0), R(0.6)]);
}

#[test]
fn images_thinner_than_a_hundredth_are_not_drawn() {
    for (w, h, drawn) in [(0.02, 5.0, 1), (0.009, 5.0, 0), (5.0, 0.009, 0), (-5.0, 5.0, 1)] {
        let mut out = Vec::new();
        let layer = photo(between(0.0, 0.0, w, h));
        draw_layer(&layer, v(0.0, 0.0), R(1.0), false, &mut out);
        assert_eq!(out.len(), drawn, "{w} by {h}");
    }
}
