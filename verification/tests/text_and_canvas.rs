use delve_game::canvas::{scaled_source_index, PixelCanvas, Rgb};
use delve_game::sign::{body_lines, open_sign, panel_height, sign_input, SignOverlayState, TEXT_WRAP_CHARS};
use delve_game::overlay::ActiveOverlay;
use delve_game::text::wrap_text;
use delve_game::textures::{
    generate_fallback, generate_iron_fence, generate_railing, seed_for, thin_wall_kind, ThinWallKind,
};

fn pixel(bytes: &[u8], width: usize, x: usize, y: usize) -> (u8, u8, u8, u8) {
    let i = (y * width + x) * 4;
    (bytes[i], bytes[i + 1], bytes[i + 2], bytes[i + 3])
}

#[test]
fn a_new_canvas_is_transparent_black() {
    let canvas = PixelCanvas::new(4);
    assert_eq!((canvas.width(), canvas.height()), (4, 4));
    assert_eq!(canvas.into_rgba_bytes(), vec![0u8; 64]);
    let wide = PixelCanvas::with_dimensions(3, 2);
    assert_eq!((wide.width(), wide.height()), (3, 2));
    assert_eq!(wide.into_rgba_bytes().len(), 24);
}

#[test]
fn fill_rect_clips_to_the_canvas() {
    let mut canvas = PixelCanvas::new(4);
    canvas.fill_rect(-1, 2, 3, 5, Rgb::opaque(9, 8, 7));
    assert_eq!(canvas.pixel_at(0, 2), Some([9, 8, 7, 255]));
    assert_eq!(canvas.pixel_at(1, 3), Some([9, 8, 7, 255]));
    assert_eq!(canvas.pixel_at(2, 2), Some([0, 0, 0, 0]));
    assert_eq!(canvas.pixel_at(0, 1), Some([0, 0, 0, 0]));
    assert_eq!(canvas.pixel_at(4, 0), None);
}

#[test]
fn stroke_rect_draws_only_the_outline() {
    let mut canvas = PixelCanvas::new(5);
    canvas.stroke_rect(0, 0, 5, 5, Rgb::opaque(1, 2, 3));
    assert_eq!(canvas.pixel_at(0, 0), Some([1, 2, 3, 255]));
    assert_eq!(canvas.pixel_at(4, 2), Some([1, 2, 3, 255]));
    assert_eq!(canvas.pixel_at(2, 2), Some([0, 0, 0, 0]));
}

#[test]
fn stroke_line_covers_both_endpoints() {
    let mut canvas = PixelCanvas::new(8);
    canvas.stroke_line(1, 1, 6, 3, Rgb::opaque(5, 5, 5));
    assert_eq!(canvas.pixel_at(1, 1), Some([5, 5, 5, 255]));
    assert_eq!(canvas.pixel_at(6, 3), Some([5, 5, 5, 255]));
    assert_eq!(canvas.pixel_at(6, 1), Some([0, 0, 0, 0]));
}

#[test]
fn generate_iron_fence_leaves_gaps_transparent_and_bars_opaque() {
    let canvas = generate_iron_fence();
    let width = canvas.width();
    let bytes = canvas.into_rgba_bytes();
    assert_eq!(pixel(&bytes, width, 0, 0), (0, 0, 0, 0));
    assert_eq!(pixel(&bytes, width, 23, 64), (0x55, 0x55, 0x55, 255));
    assert_eq!(pixel(&bytes, width, 20, 64), (0x66, 0x66, 0x66, 255));
    assert_eq!(pixel(&bytes, width, 27, 64), (0x3a, 0x3a, 0x3a, 255));
    assert_eq!(pixel(&bytes, width, 23, 33), (0x5a, 0x5a, 0x5a, 255));
    assert_eq!(pixel(&bytes, width, 0, 36), (0x4a, 0x4a, 0x4a, 255));
}

#[test]
fn the_railing_has_rails_over_supports() {
    let canvas = generate_railing();
    let width = canvas.width();
    let bytes = canvas.into_rgba_bytes();
    assert_eq!(pixel(&bytes, width, 0, 0), (0, 0, 0, 0));
    assert_eq!(pixel(&bytes, width, 17, 5), (0x48, 0x48, 0x48, 255));
    assert_eq!(pixel(&bytes, width, 17, 33), (0x48, 0x48, 0x48, 255));
    assert_eq!(pixel(&bytes, width, 5, 28), (0x66, 0x66, 0x66, 255));
    assert_eq!(pixel(&bytes, width, 5, 33), (0x50, 0x50, 0x50, 255));
    assert_eq!(pixel(&bytes, width, 5, 99), (0x38, 0x38, 0x38, 255));
}

#[test]
fn unknown_texture_name_falls_back_to_solid_gray() {
    assert_eq!(thin_wall_kind("nonexistent"), ThinWallKind::Fallback);
    let canvas = generate_fallback();
    let width = canvas.width();
    let bytes = canvas.into_rgba_bytes();
    assert_eq!(pixel(&bytes, width, 0, 0), (0x88, 0x88, 0x88, 255));
    assert_eq!(pixel(&bytes, width, 64, 64), (0x88, 0x88, 0x88, 255));
}

#[test]
fn thin_wall_names_select_their_generators() {
    assert_eq!(thin_wall_kind("stone_thin"), ThinWallKind::StoneThin);
    assert_eq!(thin_wall_kind("iron_fence"), ThinWallKind::IronFence);
    assert_eq!(thin_wall_kind("wood_fence"), ThinWallKind::WoodFence);
    assert_eq!(thin_wall_kind("railing"), ThinWallKind::Railing);
    assert_eq!(thin_wall_kind("railings"), ThinWallKind::Fallback);
}

#[test]
fn texture_seeds_are_fnv1a_of_the_name() {
    assert_eq!(seed_for(""), 0x811c_9dc5);
    assert_eq!(seed_for("a"), 0xe40c_292c);
    assert_eq!(seed_for("foobar"), 0xbf9c_f968);
    assert_ne!(seed_for("stone"), seed_for("brick"));
}

#[test]
fn wrap_text_breaks_between_words() {
    assert_eq!(wrap_text("the quick brown fox", 9), vec!["the quick", "brown fox"]);
    assert_eq!(wrap_text("  spaced   out  ", 20), vec!["spaced out"]);
    assert_eq!(wrap_text("unbreakable word", 4), vec!["unbreakable", "word"]);
    assert!(wrap_text("   ", 10).is_empty());
}

#[test]
fn short_text_stays_on_one_line() {
    assert_eq!(body_lines("beware the darkness"), vec!["BEWARE THE DARKNESS"]);
}

#[test]
fn long_text_wraps_across_multiple_lines() {
    let text = "the ancient wards protecting this crypt have long since faded into dust and shadow";
    let lines = body_lines(text);
    assert!(lines.len() > 1, "expected multiple lines, got {lines:?}");
    for line in &lines {
        assert!(line.chars().count() <= TEXT_WRAP_CHARS, "line exceeds wrap width: {line:?}");
    }
}

#[test]
fn empty_text_yields_one_empty_line() {
    assert_eq!(body_lines(""), vec![String::new()]);
}

#[test]
fn the_sign_panel_grows_with_its_lines() {
    assert_eq!(panel_height(1), 72);
    assert_eq!(panel_height(3), 96);
}

#[test]
fn a_sign_opens_and_any_input_closes_it() {
    let mut state = SignOverlayState { text: String::new() };
    let mut overlay = ActiveOverlay::NoOverlay;
    open_sign(&mut state, &mut overlay, "Turn back");
    assert_eq!(state.text, "Turn back");
    assert_eq!(overlay, ActiveOverlay::Sign);
    assert_eq!(sign_input(overlay, false, false), ActiveOverlay::Sign);
    assert_eq!(sign_input(overlay, true, false), ActiveOverlay::NoOverlay);
    assert_eq!(sign_input(overlay, false, true), ActiveOverlay::NoOverlay);
    assert_eq!(sign_input(ActiveOverlay::Dialog, true, true), ActiveOverlay::Dialog);
}

#[test]
fn scaled_source_index_samples_nearest_neighbour() {
    // A 4-wide image drawn 8 wide: each source column is read twice.
    let columns: Vec<usize> = (0..8).map(|p| scaled_source_index(p, 4, 8)).collect();
    assert_eq!(columns, vec![0, 0, 1, 1, 2, 2, 3, 3]);
    // A 5-wide image shrunk to 2: columns 0 and 2.
    assert_eq!(scaled_source_index(0, 5, 2), 0);
    assert_eq!(scaled_source_index(1, 5, 2), 2);
}

#[test]
fn drawing_never_changes_the_canvas_shape_or_layout() {
    let mut canvas = PixelCanvas::with_dimensions(5, 3);
    let red = Rgb::opaque(200, 10, 20);
    canvas.fill_rect(-10, -10, 100, 100, red);
    canvas.stroke_rect(3, 1, 40, 40, Rgb::opaque(1, 2, 3));
    canvas.stroke_line(-50, 2, 50, 2, Rgb::opaque(9, 8, 7));
    canvas.set_pixel(1, 0, [4, 5, 6, 128]);
    canvas.fill_rect(100, 100, 5, 5, red);
    assert_eq!(canvas.width(), 5);
    assert_eq!(canvas.height(), 3);
    let expected_pixel_1_0 = canvas.pixel_at(1, 0).unwrap();
    let expected_pixel_4_2 = canvas.pixel_at(4, 2).unwrap();
    let bytes = canvas.into_rgba_bytes();
    assert_eq!(bytes.len(), 5 * 3 * 4);
    assert_eq!(&bytes[(0 * 5 + 1) * 4..(0 * 5 + 1) * 4 + 4], &expected_pixel_1_0);
    assert_eq!(expected_pixel_1_0, [4, 5, 6, 128]);
    assert_eq!(&bytes[(2 * 5 + 4) * 4..(2 * 5 + 4) * 4 + 4], &expected_pixel_4_2);
    assert_eq!(expected_pixel_4_2, [9, 8, 7, 255]);
}
