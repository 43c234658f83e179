use sdesign::alike::layer_alike;
use sdesign::color::{with_opacity, Color32};
use sdesign::fixed::Fixed;
use sdesign::fonts::{ab_glyph_bytes, ab_glyph_bytes_bold, FontFile};
use sdesign::geometry::{Pos2, Rect, Vec2};
use sdesign::glyphs::{blend_glyph_pixel, pixel_index, place_glyph_pixel};
use sdesign::halftone_fill::{sample, smoothstep};
use sdesign::image_commands::{build_mask_overlay, clear_mask, fill_mask, Pixel};
use sdesign::image_edit::{doc_to_pixel, mask_bbox, merge_mask, rect_mask};
use sdesign::layer_painting::{earcut_polygon, stack_paragraphs, text_stamps};
use sdesign::marks::nice_ruler_step;
use sdesign::model::{CornerRadii, Frame, Layer, LayerId, LayerKind};
use sdesign::outlines::{arrow_cap_size, arrow_cap_wings};
use sdesign::painting::Place;
use sdesign::path_edit::{cubic_bezier_point, distance_to_segment};
use sdesign::scalar::Scalar;
use sdesign::shading::{mix_colors, Ground};
use sdesign::snapping::snap_value;
use sdesign::style::{Gradient, GradientKind, GradientStop, HalftoneFill, Shadow};
use sdesign::text::{TextAlign, TextBlock, TextFont, VerticalAlign};
use sdesign::texture_cache::{
    halftone_pixels, quantize, HalftoneKey, HalftoneTextureCache, MaskKey, MaskedGroupTextureCache,
    ShadowTextureCache, TextureCache,
};
use sdesign::transform::Handle;

#[derive(Clone, Copy, Debug, PartialEq)]
struct R(f32);

impl Scalar for R {
    fn ratio(num: i32, den: i32) -> Self {
        R(num as f32 / den as f32)
    }
    fn of_count(n: u64) -> Self {
        R(n as f32)
    }
    fn of_int(n: i64) -> Self {
        R(n as f32)
    }
    fn plus(self, other: Self) -> Self {
        R(self.0 + other.0)
    }
    fn minus(self, other: Self) -> Self {
        R(self.0 - other.0)
    }
    fn times(self, other: Self) -> Self {
        R(self.0 * other.0)
    }
    fn over(self, other: Self) -> Self {
        R(self.0 / other.0)
    }
    fn negated(self) -> Self {
        R(-self.0)
    }
    fn magnitude(self) -> Self {
        R(self.0.abs())
    }
    fn lesser(self, other: Self) -> Self {
        R(self.0.min(other.0))
    }
    fn greater(self, other: Self) -> Self {
        R(self.0.max(other.0))
    }
    fn is_lt(self, other: Self) -> bool {
        self.0 < other.0
    }
    fn is_le(self, other: Self) -> bool {
        self.0 <= other.0
    }
    fn is_same(self, other: Self) -> bool {
        self.0 == other.0
    }
    fn rounded(self) -> Self {
        R(self.0.round())
    }
    fn floored(self) -> Self {
        R(self.0.floor())
    }
    fn ceiled(self) -> Self {
        R(self.0.ceil())
    }
    fn decade(self) -> Self {
        R(10f32.powf(self.0.log10().floor()))
    }
    fn root(self) -> Self {
        R(self.0.sqrt())
    }
    fn hypot(self, other: Self) -> Self {
        R(self.0.hypot(other.0))
    }
    fn sin_deg(self) -> Self {
        R(self.0.to_radians().sin())
    }
    fn cos_deg(self) -> Self {
        R(self.0.to_radians().cos())
    }
    fn atan2(self, x: Self) -> Self {
        R(self.0.atan2(x.0))
    }
    fn to_degrees(self) -> Self {
        R(self.0.to_degrees())
    }
    fn is_finite(self) -> bool {
        self.0.is_finite()
    }
    fn to_i64(self) -> i64 {
        self.0 as i64
    }
}

fn p(x: f32, y: f32) -> Pos2<R> {
    Pos2::new(R(x), R(y))
}

fn v(x: f32, y: f32) -> Vec2<R> {
    Vec2::new(R(x), R(y))
}

fn black() -> Color32 {
    Color32::from_rgb(0, 0, 0)
}

fn white() -> Color32 {
    Color32::from_rgb(255, 255, 255)
}

fn sample_fill() -> HalftoneFill<R> {
    HalftoneFill { background: white(), dot: black(), scale: R(10.0), coverage: R(0.8) }
}

#[test]
fn center_of_a_dot_is_the_dot_color() {
    // Row 0 is unstaggered, so its dot center is at (scale/2, scale/2).
    assert_eq!(sample(&sample_fill(), p(5.0, 5.0), R(1.0)), black());
}

#[test]
fn far_from_any_dot_center_is_the_background_color() {
    // A cell corner is maximally far from every neighboring dot center.
    assert_eq!(sample(&sample_fill(), p(0.0, 0.0), R(1.0)), white());
}

#[test]
fn odd_rows_are_staggered_by_half_a_cell() {
    assert_eq!(sample(&sample_fill(), p(5.0, 15.0), R(1.0)), white());
    assert_eq!(sample(&sample_fill(), p(10.0, 15.0), R(1.0)), black());
}

#[test]
fn opacity_scales_alpha() {
    assert_eq!(sample(&sample_fill(), p(5.0, 5.0), R(0.5)).a, 128);
}

#[test]
fn smoothstep_rises_from_one_edge_to_the_other() {
    assert_eq!(smoothstep(R(0.0), R(4.0), R(-1.0)), R(0.0));
    assert_eq!(smoothstep(R(0.0), R(4.0), R(2.0)), R(0.5));
    assert_eq!(smoothstep(R(0.0), R(4.0), R(9.0)), R(1.0));
}

#[test]
fn unmultiplied_channels_are_scaled_by_alpha() {
    for (r, g, b, a) in [(255, 128, 0, 255), (200, 100, 50, 128), (10, 20, 30, 0), (255, 255, 255, 1)] {
        let ours = Color32::from_rgba_unmultiplied(r, g, b, a);
        let theirs = egui::Color32::from_rgba_unmultiplied(r, g, b, a);
        assert_eq!((ours.r, ours.g, ours.b, ours.a), (theirs.r(), theirs.g(), theirs.b(), theirs.a()));
    }
    assert_eq!(Color32::from_rgba_unmultiplied(200, 100, 50, 0), Color32::transparent());
    assert_ne!(Color32::from_rgba_unmultiplied(200, 100, 50, 128).r, 200);
}

#[test]
fn premultiplied_pixels_never_exceed_their_alpha() {
    let c = Color32 { r: 200, g: 100, b: 0, a: 128 };
    assert_eq!(c.premultiplied(), Some(Color32 { r: 100, g: 50, b: 0, a: 128 }));
    assert_eq!(Color32::transparent().premultiplied(), Some(Color32::transparent()));
}

#[test]
fn opacity_fades_a_color() {
    assert_eq!(with_opacity(Color32::from_rgb(255, 0, 0), R(1.0)), Color32::from_rgb(255, 0, 0));
    assert_eq!(with_opacity(Color32::from_rgb(255, 0, 0), R(0.5)).a, 128);
    assert_eq!(with_opacity(Color32::from_rgb(255, 0, 0), R(7.0)).a, 255);
    assert_eq!(with_opacity(Color32::from_rgb(255, 0, 0), R(-1.0)), Color32::transparent());
}

#[test]
fn glyph_pixels_are_blended_over_what_is_there() {
    let over = blend_glyph_pixel(Color32::transparent(), R(1.0), Color32::from_rgb(10, 20, 30));
    assert_eq!(over, Color32::from_rgb(10, 20, 30));
    let half = blend_glyph_pixel(white(), R(0.5), black());
    assert_eq!(half, Color32 { r: 128, g: 128, b: 128, a: 255 });
    assert_eq!(blend_glyph_pixel(white(), R(0.0), black()), white());
}

#[test]
fn glyph_pixels_outside_of_the_clip_or_the_picture_are_dropped() {
    let clip = Some(Rect::from_min_size(p(0.0, 0.0), v(10.0, 10.0)));
    assert_eq!(place_glyph_pixel(3, 4, R(8.0), false, clip), Some((3, 4)));
    assert_eq!(place_glyph_pixel(10, 4, R(8.0), false, clip), None);
    // Ten rows above the baseline an italic glyph leans two pixels.
    assert_eq!(place_glyph_pixel(3, -2, R(8.0), true, None), Some((5, -2)));
    assert_eq!(pixel_index(2, 3, 10, 10), Some(32));
    assert_eq!(pixel_index(-1, 3, 10, 10), None);
    assert_eq!(pixel_index(2, 10, 10, 10), None);
}

#[test]
fn gradients_mix_between_their_stops() {
    assert_eq!(mix_colors(black(), white(), R(0.5)).r, 128);
    let g = Gradient {
        kind: GradientKind::Linear,
        from: p(0.0, 0.5),
        to: p(1.0, 0.5),
        stops: vec![
            GradientStop { offset: R(0.0), color: Color32::from_rgb(255, 0, 0) },
            GradientStop { offset: R(1.0), color: Color32::from_rgb(0, 0, 255) },
        ],
    };
    assert_eq!(g.color_at(R(0.0)), Color32::from_rgb(255, 0, 0));
    assert_eq!(g.color_at(R(2.0)), Color32::from_rgb(0, 0, 255));
    assert_eq!(g.sample_normalized(p(1.0, 0.0)), Color32::from_rgb(0, 0, 255));
    let ground = Ground {
        rect: Rect::from_min_size(p(10.0, 10.0), v(20.0, 40.0)),
        center: p(20.0, 30.0),
        rotation: R(0.0),
    };
    assert_eq!(ground.fraction(p(20.0, 20.0)), p(0.5, 0.25));
}

#[test]
fn missing_families_are_drawn_in_the_proportional_face() {
    let font = TextFont::System("Nowhere".to_string());
    assert_eq!(ab_glyph_bytes(&font, None), (FontFile::Proportional, 0));
    assert_eq!(ab_glyph_bytes(&font, Some(2)), (FontFile::Installed, 2));
    assert_eq!(ab_glyph_bytes_bold(&font, Some(2), None), (FontFile::Installed, 2));
    assert_eq!(ab_glyph_bytes_bold(&font, Some(2), Some(3)), (FontFile::InstalledBold, 3));
    assert_eq!(ab_glyph_bytes_bold(&TextFont::Serif, None, None), (FontFile::SerifBold, 0));
}

#[test]
fn textures_are_kept_while_they_serve() {
    let mut cache: HalftoneTextureCache<R, u8> = TextureCache::new();
    let key = |w: u32| HalftoneKey {
        fill: sample_fill(),
        local_size: v(60.0, 60.0),
        pixel_size: (w, 64),
    };
    cache.insert(1, key(64), 7);
    cache.insert(2, key(64), 8);
    assert_eq!(cache.current(1, &key(64)), Some(&7));
    assert_eq!(cache.current(1, &key(128)), None);
    cache.insert(1, key(128), 9);
    assert_eq!(cache.current(1, &key(128)), Some(&9));
    cache.evict_stale(&vec![2]);
    assert!(cache.get(1).is_none() && cache.get(2).is_some());
    cache.remove(2);
    assert!(cache.get(2).is_none());
    assert!(quantize(R(60.0)) >= 60);
}

#[test]
fn masks_of_pixels() {
    let mask = rect_mask(4, 3, 1, 1, 2, 2);
    assert_eq!(mask.iter().filter(|m| **m).count(), 4);
    assert_eq!(mask_bbox(&mask, 4), Some((1, 1, 2, 2)));
    assert_eq!(mask_bbox(&[false; 12], 4), None);
    assert_eq!(mask_bbox(&[], 0), None);
    assert_eq!(mask_bbox(&[false; 3], 0), None);
    let mut base = rect_mask(4, 3, 0, 0, 3, 2);
    merge_mask(&mut base, &mask, true);
    assert_eq!(base.iter().filter(|m| **m).count(), 8);
    assert!(!base[5]);
    merge_mask(&mut base, &mask, false);
    assert!(base.iter().all(|m| *m));
    let bounds = Rect::from_min_size(p(10.0, 10.0), v(40.0, 30.0));
    assert_eq!(doc_to_pixel(p(25.0, 35.0), bounds, 4, 3), Some((1, 2)));
    // A point beside the image is the nearest pixel of its edge.
    assert_eq!(doc_to_pixel(p(5.0, 35.0), bounds, 4, 3), Some((0, 2)));
    assert_eq!(doc_to_pixel(p(25.0, 35.0), bounds, 0, 3), None);

    let grey = Pixel { r: 9, g: 9, b: 9, a: 255 };
    let mut pixels = vec![grey; 12];
    fill_mask(&mut pixels, &mask, Color32::from_rgb(1, 2, 3));
    assert_eq!(pixels[5], Pixel { r: 1, g: 2, b: 3, a: 255 });
    assert_eq!(pixels[0], grey);
    clear_mask(&mut pixels, &mask);
    assert_eq!(pixels[5].a, 0);
    assert_eq!(pixels[0], grey);
    let overlay = build_mask_overlay(&mask);
    assert_ne!(overlay[5], overlay[0]);
    assert_eq!(overlay[0], Color32::transparent());
}

#[test]
fn formulas_of_lines_and_curves() {
    assert_eq!(distance_to_segment(p(5.0, 3.0), p(0.0, 0.0), p(10.0, 0.0)), R(3.0));
    assert_eq!(distance_to_segment(p(-4.0, 3.0), p(0.0, 0.0), p(10.0, 0.0)), R(5.0));
    let q = cubic_bezier_point(p(0.0, 0.0), p(0.0, 4.0), p(4.0, 4.0), p(4.0, 0.0), R(0.5));
    assert_eq!(q, p(2.0, 3.0));
    assert_eq!(arrow_cap_size(R(2.0)), R(8.0));
    assert_eq!(arrow_cap_size(R(6.0)), R(21.0));
    assert_eq!(
        arrow_cap_wings(p(40.0, 20.0), v(40.0, 0.0), R(2.0)),
        Some((p(32.0, 24.0), p(32.0, 16.0)))
    );
    assert_eq!(arrow_cap_wings(p(40.0, 20.0), v(0.0, 0.0), R(2.0)), None);
    assert_eq!(snap_value(R(9.0), &vec![R(0.0), R(10.0)], R(2.0)), Some(R(10.0)));
    assert_eq!(snap_value(R(5.0), &vec![R(0.0), R(10.0)], R(2.0)), None);
    assert_eq!(nice_ruler_step(R(1.0), R(80.0)), R(100.0));
}

#[test]
fn resizing_keeps_the_opposite_corner() {
    let r = Rect::from_min_size(p(10.0, 10.0), v(20.0, 20.0));
    assert_eq!(Handle::BottomRight.resize(r, p(50.0, 40.0)), Rect::from_min_max(p(10.0, 10.0), p(50.0, 40.0)));
    assert_eq!(Handle::Top.resize(r, p(99.0, 0.0)), Rect::from_min_max(p(10.0, 0.0), p(30.0, 30.0)));
    assert_eq!(Handle::BottomRight.pos(r), p(30.0, 30.0));
}

#[test]
fn polygons_are_cut_into_triangles() {
    let square = vec![p(0.0, 0.0), p(4.0, 0.0), p(4.0, 4.0), p(0.0, 4.0)];
    let hole = vec![p(1.0, 1.0), p(2.0, 1.0), p(2.0, 2.0)];
    let (points, starts) = earcut_polygon(&square, &vec![hole]).unwrap();
    assert_eq!(points.len(), 7);
    assert_eq!(starts, vec![4]);
    let flat: Vec<f64> = points.iter().flat_map(|q| [q.x.0 as f64, q.y.0 as f64]).collect();
    let triangles = earcutr::earcut(&flat, &starts, 2).unwrap();
    assert_eq!(triangles.len() % 3, 0);
    assert!(!triangles.is_empty());
    assert_eq!(earcut_polygon(&vec![p(0.0, 0.0)], &Vec::new()), None);
}

fn fixed(n: i32, d: i32) -> Fixed {
    Fixed::ratio(n, d)
}

#[test]
fn fixed_numbers_count_in_units() {
    assert_eq!(fixed(3, 2).raw, 98304);
    assert_eq!(fixed(-3, 2).plus(fixed(1, 2)), fixed(-1, 1));
    assert_eq!(fixed(3, 2).times(fixed(-2, 1)), fixed(-3, 1));
    assert_eq!(fixed(3, 1).over(fixed(2, 1)), fixed(3, 2));
    assert_eq!(fixed(3, 1).over(fixed(0, 1)), fixed(0, 1));
    assert_eq!(fixed(-5, 2).rounded(), fixed(-3, 1));
    assert_eq!(fixed(-5, 2).floored(), fixed(-3, 1));
    assert_eq!(fixed(-5, 2).ceiled(), fixed(-2, 1));
    assert_eq!(fixed(-5, 2).to_i64(), -2);
    assert_eq!(fixed(9, 1).root(), fixed(3, 1));
    assert_eq!(fixed(3, 1).hypot(fixed(-4, 1)), fixed(5, 1));
    assert_eq!(fixed(250, 1).decade(), fixed(100, 1));
    assert_eq!(fixed(0, 1).sin_deg(), fixed(0, 1));
    assert_eq!(fixed(90, 1).sin_deg(), fixed(1, 1));
    assert_eq!(fixed(180, 1).cos_deg(), fixed(-1, 1));
    assert_eq!(fixed(0, 1).atan2(fixed(1, 1)), fixed(0, 1));
    assert_eq!(Fixed::of_count(70000).raw, i32::MAX);
    assert_eq!(Fixed::of_int(-70000).raw, i32::MIN);
}

#[test]
fn geometry_works_on_fixed_numbers() {
    let r = Rect::from_two_pos(
        Pos2::new(fixed(4, 1), fixed(6, 1)),
        Pos2::new(fixed(1, 1), fixed(2, 1)),
    );
    assert_eq!(r.size(), Vec2::new(fixed(3, 1), fixed(4, 1)));
    assert_eq!(r.size().length(), fixed(5, 1));
}

#[test]
fn dots_take_the_channels_of_the_sample_as_they_are() {
    let clear = Color32::from_rgba_unmultiplied(200, 100, 50, 128);
    let fill = HalftoneFill { background: clear, dot: clear, scale: R(10.0), coverage: R(0.8) };
    let key = HalftoneKey { fill, local_size: v(4.0, 4.0), pixel_size: (2, 2) };
    let pixels = halftone_pixels(&key);
    assert_eq!(pixels.len(), 4);
    let c = sample(&fill, p(1.0, 1.0), R(1.0));
    assert_eq!(pixels[0], Color32::from_rgba_unmultiplied(c.r, c.g, c.b, c.a));
    assert_ne!(pixels[0], c);
}

fn boxed(id: LayerId, name: &str) -> Layer<R> {
    Layer::new(
        id,
        name,
        Frame { pos: p(0.0, 0.0), size: v(10.0, 10.0), rotation: R(0.0) },
        LayerKind::Rectangle { corner_radius: CornerRadii::uniform(R(2.0)) },
    )
}

#[test]
fn a_masks_texture_is_current_while_the_mask_and_its_content_stay_alike() {
    let key = |content: Vec<Layer<R>>| MaskKey { mask: boxed(1, "Mask"), content };
    let mut cache: MaskedGroupTextureCache<R, u8> = TextureCache::new();
    assert_eq!(cache.current(&key(vec![])), None);
    cache.insert(1, key(vec![boxed(2, "A"), boxed(3, "B")]), 5);
    assert_eq!(cache.current(&key(vec![boxed(2, "A"), boxed(3, "B")])), Some(&5));
    assert_eq!(cache.current(&key(vec![boxed(3, "B"), boxed(2, "A")])), None);
    assert_eq!(cache.current(&key(vec![boxed(2, "A")])), None);
    let mut moved = key(vec![boxed(2, "A"), boxed(3, "B")]);
    moved.mask.frame.pos.x = R(1.0);
    assert_eq!(cache.current(&moved), None);
}

#[test]
fn shadows_are_current_while_the_layer_stays_alike() {
    let shadow = Shadow { color: black(), offset: v(1.0, 2.0), blur: R(3.0), spread: R(0.0) };
    let mut layer = boxed(1, "A");
    let mut cache: ShadowTextureCache<R, u8> = TextureCache::new();
    layer.style.shadows.push(shadow);
    cache.insert(1, layer.duplicate(), 6);
    assert_eq!(cache.current(&layer), Some(&6));
    layer.opacity = R(0.5);
    assert_eq!(cache.current(&layer), None);
    assert!(cache.get(1).is_some());
    layer.style.shadows.clear();
    assert_eq!(cache.current(&layer), None);
    assert!(cache.get(1).is_none());
}

#[test]
fn alike_layers_hold_alike_layers() {
    let group = |inner: &str| {
        let mut g = boxed(9, "G");
        g.kind = LayerKind::Group { children: vec![boxed(1, "A"), boxed(2, inner)] };
        g
    };
    assert!(layer_alike(&group("B"), &group("B")));
    assert!(!layer_alike(&group("B"), &group("C")));
    let mut text = boxed(1, "T");
    text.kind = LayerKind::Text { text: TextBlock::plain("Hi".to_string(), R(12.0)) };
    let mut larger = text.duplicate();
    assert!(layer_alike(&text, &larger));
    larger.kind = LayerKind::Text { text: TextBlock::plain("Hi".to_string(), R(13.0)) };
    assert!(!layer_alike(&text, &larger));
    let mut unlike_itself = boxed(1, "A");
    unlike_itself.opacity = R(f32::NAN);
    assert!(!layer_alike(&unlike_itself, &unlike_itself));
}

#[test]
fn paragraphs_are_stacked_and_stamped_with_the_turn_of_their_layer() {
    let (offsets, total) = stack_paragraphs(&vec![R(20.0), R(10.0), R(15.0)], R(5.0));
    assert_eq!(offsets, vec![R(0.0), R(25.0), R(40.0)]);
    assert_eq!(total, R(55.0));
    let mut layer = boxed(1, "T");
    layer.frame.size = v(40.0, 60.0);
    let mut text = TextBlock::plain("a\n\nb".to_string(), R(12.0));
    text.vertical_align = VerticalAlign::Top;
    text.align = TextAlign::Left;
    text.bold = true;
    layer.kind = LayerKind::Text { text };
    let place = Place { origin: p(0.0, 0.0), pan: v(0.0, 0.0), zoom: R(1.0), offset: v(0.0, 0.0) };
    let empty = vec![false, true, false];
    let stamps = text_stamps(&layer, place, total, &offsets, &empty);
    assert_eq!(stamps.iter().map(|s| s.paragraph).collect::<Vec<_>>(), vec![0, 0, 2, 2]);
    assert_eq!(stamps[0].at, p(0.0, 0.0));
    assert!((stamps[1].at.x.0 - 0.6).abs() < 1e-5 && stamps[1].at.y == R(0.0));
    assert_eq!(stamps[2].at, p(0.0, 40.0));
    layer.frame.rotation = R(180.0);
    let turned = text_stamps(&layer, place, total, &offsets, &empty);
    assert_eq!(turned[0].degrees, R(180.0));
    assert!((turned[0].at.x.0 - 40.0).abs() < 1e-3 && (turned[0].at.y.0 - 60.0).abs() < 1e-3);
    assert!(text_stamps(&boxed(1, "A"), place, total, &offsets, &empty).is_empty());
}
