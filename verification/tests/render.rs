use image::{Pixel, Rgba};
use imageproc::geometric_transformations::Projection;
use sar_core::canvas::blend;
use sar_core::draw::control_points;
use sar_core::payload::{Header, Layer, Payload};
use sar_core::resource::Resource;
use sar_core::{Canvas, Color, Position, RenderColor, SARError, SymbolArtDrawer, SymbolId};

const CLEAR: Color = Color { a: 0, r: 0, g: 0, b: 0 };

/// A sheet in which every pixel has the given colour.
fn plain_sheet(rows: u32, color: Color) -> Canvas {
    Canvas { width: 1024, height: rows * 64, pixels: vec![color; (1024 * rows * 64) as usize] }
}

/// Mask sheets that cover their cells wholly, and a colour sheet in orange.
fn resource() -> Resource {
    let mask = Color { a: 255, r: 255, g: 255, b: 255 };
    Resource::from_sheets(
        plain_sheet(6, mask),
        plain_sheet(15, mask),
        plain_sheet(15, mask),
        plain_sheet(4, Color { a: 255, r: 250, g: 120, b: 10 }),
    )
}

/// A layer whose corners are those of the rectangle from `(x0, y0)` to `(x1, y1)`.
fn rect(x0: u8, y0: u8, x1: u8, y1: u8, symbol_id: u16, argb: (u8, u8, u8, u8)) -> Layer {
    Layer {
        top_left: Position { x: x0, y: y0 },
        bottom_left: Position { x: x0, y: y1 },
        top_right: Position { x: x1, y: y0 },
        bottom_right: Position { x: x1, y: y1 },
        is_hidden: false,
        symbol_id,
        alpha: argb.0,
        color_r: argb.1,
        color_g: argb.2,
        color_b: argb.3,
    }
}

fn artwork(layers: Vec<Layer>) -> Payload {
    Payload {
        header: Header {
            author_id: 1,
            layers: layers.len() as u8,
            height: 0x80,
            width: 0,
            sound_effect: 0,
        },
        layers,
        name: vec![],
    }
}

fn projection(layer: &Layer, scale: f32) -> Option<Projection> {
    let (from, to) = control_points(layer);
    Projection::from_control_points(
        from.map(|(x, y)| (x as f32, y as f32)),
        to.map(|(x, y)| (x as f32 * scale, y as f32 * scale)),
    )
}

fn projections(sa: &Payload, scale: f32) -> Vec<Option<Projection>> {
    sa.layers.iter().map(|layer| projection(layer, scale)).collect()
}

/// Renders on the canvas of 256 by 256 and returns all of it.
fn whole(drawer: &SymbolArtDrawer, sa: &Payload) -> Result<Canvas, SARError> {
    drawer.draw_projected(sa, &projections(sa, 1.0), (256, 256), (256, 256))
}

fn lenient() -> SymbolArtDrawer {
    SymbolArtDrawer::new(resource())
}

fn strict() -> SymbolArtDrawer {
    SymbolArtDrawer::new(resource()).with_raise_error(true)
}

const RED: (u8, u8, u8, u8) = (7, 63, 0, 0);
const BLUE: (u8, u8, u8, u8) = (7, 0, 0, 63);
const OPAQUE_RED: Color = Color { a: 255, r: 252, g: 0, b: 0 };
const OPAQUE_BLUE: Color = Color { a: 255, r: 0, g: 0, b: 252 };

#[test]
fn control_points_pair_the_corners() {
    let layer = Layer {
        top_left: Position { x: 1, y: 2 },
        bottom_left: Position { x: 3, y: 4 },
        top_right: Position { x: 5, y: 6 },
        bottom_right: Position { x: 7, y: 8 },
        ..rect(0, 0, 0, 0, 1, RED)
    };
    let (from, to) = control_points(&layer);
    assert_eq!(from, [(0, 0), (64, 0), (64, 64), (0, 64)]);
    assert_eq!(to, [(1, 2), (5, 6), (7, 8), (3, 4)]);
}

#[test]
fn native_size_follows_the_size_byte() {
    let mut sa = artwork(vec![rect(100, 100, 150, 150, 1, RED)]);
    let drawer = strict();
    let image = drawer.draw(&sa, &projections(&sa, 1.0)).unwrap();
    assert_eq!((image.width(), image.height()), (193, 96));
    assert_eq!(image, whole(&drawer, &sa).unwrap().crop(32, 80, 193, 96));
    assert_eq!(image.get_pixel(120 - 32, 120 - 80), OPAQUE_RED);
    sa.header.height = 0x40;
    let flag = drawer.draw(&sa, &projections(&sa, 1.0)).unwrap();
    assert_eq!((flag.width(), flag.height()), (32, 32));
    assert_eq!(flag.pixels, vec![OPAQUE_RED; 32 * 32]);
    sa.header.height = 0x41;
    assert!(matches!(drawer.draw(&sa, &projections(&sa, 1.0)), Err(SARError::InvalidSize(0x41))));
    // the size byte is looked at before the layers
    sa.layers[0].symbol_id = 0;
    assert!(matches!(drawer.draw(&sa, &projections(&sa, 1.0)), Err(SARError::InvalidSize(0x41))));
    sa.header.height = 0x80;
    assert!(matches!(drawer.draw(&sa, &projections(&sa, 1.0)), Err(SARError::SymbolNotFound(_))));
    assert!(lenient().draw(&sa, &projections(&sa, 1.0)).is_ok());
}

#[test]
fn drawer_is_lenient_until_told_otherwise() {
    assert!(SymbolArtDrawer::new(resource()).suppress_failure);
    assert!(!SymbolArtDrawer::new(resource()).with_raise_error(true).suppress_failure);
    assert!(SymbolArtDrawer::new(resource()).with_raise_error(false).suppress_failure);
    assert!(strict().with_raise_error(false).suppress_failure);
}

#[test]
fn no_layers_give_a_transparent_view() {
    let sa = artwork(vec![]);
    let image = lenient().draw_projected(&sa, &vec![], (256, 256), (193, 96)).unwrap();
    assert_eq!((image.width(), image.height()), (193, 96));
    assert_eq!(image.pixels, vec![CLEAR; 193 * 96]);
}

#[test]
fn one_layer_fills_its_rectangle() {
    let sa = artwork(vec![rect(100, 100, 140, 140, 1, RED)]);
    let canvas = whole(&strict(), &sa).unwrap();
    for (x, y) in [(101, 101), (120, 120), (138, 138), (101, 138), (138, 101)] {
        assert_eq!(canvas.get_pixel(x, y), OPAQUE_RED);
    }
    for (x, y) in [(0, 0), (98, 120), (142, 120), (120, 98), (120, 142), (255, 255)] {
        assert_eq!(canvas.get_pixel(x, y), CLEAR);
    }
}

#[test]
fn view_is_the_centre_of_the_canvas() {
    let sa = artwork(vec![rect(100, 100, 140, 140, 1, RED)]);
    let drawer = strict();
    let canvas = whole(&drawer, &sa).unwrap();
    let view = drawer.draw_projected(&sa, &projections(&sa, 1.0), (256, 256), (193, 96)).unwrap();
    assert_eq!((view.width(), view.height()), (193, 96));
    assert_eq!(view, canvas.crop(128 - 96, 128 - 48, 193, 96));
    assert_eq!(view.get_pixel(120 - 32, 120 - 80), OPAQUE_RED);
    assert_eq!(view.get_pixel(0, 0), CLEAR);
    let flag = drawer.draw_projected(&sa, &projections(&sa, 1.0), (256, 256), (32, 32)).unwrap();
    assert_eq!(flag, canvas.crop(112, 112, 32, 32));
    assert_eq!(flag.get_pixel(0, 0), OPAQUE_RED);
    assert_eq!(flag.get_pixel(26, 26), OPAQUE_RED);
    assert_eq!(flag.get_pixel(30, 30), CLEAR);
}

#[test]
fn first_layer_lies_on_top() {
    let top = rect(100, 100, 140, 140, 1, RED);
    let bottom = rect(120, 120, 160, 160, 2, BLUE);
    let canvas = whole(&strict(), &artwork(vec![top, bottom])).unwrap();
    // inside both
    for (x, y) in [(122, 122), (130, 130), (138, 138)] {
        assert_eq!(canvas.get_pixel(x, y), OPAQUE_RED);
    }
    // inside one of them only
    assert_eq!(canvas.get_pixel(105, 105), OPAQUE_RED);
    assert_eq!(canvas.get_pixel(150, 150), OPAQUE_BLUE);
    assert_eq!(canvas.get_pixel(150, 105), CLEAR);

    // the other way round, the overlap is blue
    let canvas = whole(&strict(), &artwork(vec![bottom, top])).unwrap();
    for (x, y) in [(122, 122), (130, 130), (138, 138)] {
        assert_eq!(canvas.get_pixel(x, y), OPAQUE_BLUE);
    }
    assert_eq!(canvas.get_pixel(105, 105), OPAQUE_RED);
}

#[test]
fn order_holds_across_many_layers() {
    // twenty-five layers on one spot, each in its own shade
    let layers: Vec<Layer> =
        (0..25u8).map(|k| rect(50, 50, 90, 90, 1, (7, k + 1, 2 * k, 63 - k))).collect();
    let canvas = whole(&strict(), &artwork(layers.clone())).unwrap();
    assert_eq!(canvas.get_pixel(70, 70), layers[0].color());
    assert_eq!(canvas.get_pixel(70, 70), Color { a: 255, r: 4, g: 0, b: 252 });
    let canvas = whole(&strict(), &artwork(layers[11..].to_vec())).unwrap();
    assert_eq!(canvas.get_pixel(70, 70), layers[11].color());
}

#[test]
fn hidden_layer_is_as_good_as_absent() {
    let top = rect(100, 100, 140, 140, 1, RED);
    let bottom = rect(120, 120, 160, 160, 2, BLUE);
    let hidden = Layer { is_hidden: true, ..rect(90, 90, 200, 200, 3, (7, 0, 63, 0)) };
    let without = whole(&strict(), &artwork(vec![top, bottom])).unwrap();
    for at in 0..3 {
        let mut layers = vec![top, bottom];
        layers.insert(at, hidden);
        assert_eq!(whole(&strict(), &artwork(layers.clone())).unwrap(), without);
        assert_eq!(whole(&lenient(), &artwork(layers)).unwrap(), without);
    }
    assert_eq!(whole(&strict(), &artwork(vec![hidden])).unwrap(), Canvas::new(256, 256));
}

#[test]
fn rendering_twice_gives_the_same_image() {
    let layers: Vec<Layer> = (0..12u8)
        .map(|k| rect(20 + 9 * k, 30 + 7 * k, 80 + 9 * k, 90 + 7 * k, 1 + k as u16, (k % 8, 63 - k, k, 5 * k)))
        .collect();
    let sa = artwork(layers);
    let first = whole(&strict(), &sa).unwrap();
    let second = whole(&strict(), &sa).unwrap();
    assert_eq!(first, second);
    assert_eq!(strict().draw(&sa, &projections(&sa, 1.0)).unwrap(), first.crop(32, 80, 193, 96));
}

#[test]
fn all_hidden_layers_taken_out_give_the_same_image() {
    let mut layers: Vec<Layer> = (0..12u8)
        .map(|k| rect(20 + 9 * k, 30 + 7 * k, 80 + 9 * k, 90 + 7 * k, 1 + k as u16, (7, 63 - k, k, 5 * k)))
        .collect();
    for k in [0usize, 3, 4, 11] {
        layers[k].is_hidden = true;
    }
    let shown: Vec<Layer> = layers.iter().filter(|layer| !layer.is_hidden).cloned().collect();
    assert_eq!(shown.len(), 8);
    for drawer in [strict(), lenient()] {
        assert_eq!(whole(&drawer, &artwork(layers.clone())).unwrap(), whole(&drawer, &artwork(shown.clone())).unwrap());
    }
    // and the same error where a layer that is not hidden fails
    layers[7].symbol_id = 0;
    let shown: Vec<Layer> = layers.iter().filter(|layer| !layer.is_hidden).cloned().collect();
    for sa in [artwork(layers), artwork(shown)] {
        assert!(matches!(whole(&strict(), &sa), Err(SARError::SymbolNotFound(id)) if id == SymbolId::new(0)));
    }
}

#[test]
fn all_failing_layers_taken_out_give_the_same_image_when_lenient() {
    let mut layers: Vec<Layer> = (0..12u8)
        .map(|k| rect(20 + 9 * k, 30 + 7 * k, 80 + 9 * k, 90 + 7 * k, 1 + k as u16, (7, 63 - k, k, 5 * k)))
        .collect();
    layers[2].symbol_id = 100;
    layers[5] = rect(60, 60, 60, 60, 1, RED);
    layers[9].symbol_id = 0;
    let sound: Vec<Layer> =
        layers.iter().enumerate().filter(|(k, _)| ![2, 5, 9].contains(k)).map(|(_, l)| *l).collect();
    let with = whole(&lenient(), &artwork(layers)).unwrap();
    assert_eq!(with, whole(&lenient(), &artwork(sound.clone())).unwrap());
    assert_eq!(with, whole(&strict(), &artwork(sound)).unwrap());
}

#[test]
fn hidden_layer_may_lack_symbol_and_projection() {
    let top = rect(100, 100, 140, 140, 1, RED);
    let lost = Layer { is_hidden: true, ..rect(7, 7, 7, 7, 0, RED) };
    let sa = artwork(vec![lost, top, lost]);
    assert_eq!(whole(&strict(), &sa).unwrap(), whole(&strict(), &artwork(vec![top])).unwrap());
}

#[test]
fn degenerate_quad_has_no_projection() {
    let point = rect(77, 77, 77, 77, 1, RED);
    assert!(projection(&point, 1.0).is_none());
    assert!(projection(&point, 2.0).is_none());
}

#[test]
fn degenerate_quad_is_an_error_when_strict() {
    let point = rect(77, 78, 77, 78, 1, RED);
    let sa = artwork(vec![rect(100, 100, 140, 140, 1, RED), point]);
    let err = whole(&strict(), &sa).unwrap_err();
    match err {
        SARError::ProjectionError(from, to) => {
            assert_eq!(from, [(0, 0), (64, 0), (64, 64), (0, 64)]);
            assert_eq!(to, [(77, 78), (77, 78), (77, 78), (77, 78)]);
        }
        other => panic!("{:?}", other),
    }
}

#[test]
fn degenerate_quad_is_skipped_when_lenient() {
    let point = rect(77, 77, 77, 77, 1, RED);
    let canvas = whole(&lenient(), &artwork(vec![point])).unwrap();
    assert_eq!(canvas, Canvas::new(256, 256));
    // and the layers around it are drawn as without it
    let top = rect(100, 100, 140, 140, 1, RED);
    let bottom = rect(120, 120, 160, 160, 2, BLUE);
    let with = whole(&lenient(), &artwork(vec![top, point, bottom])).unwrap();
    let without = whole(&lenient(), &artwork(vec![top, bottom])).unwrap();
    assert_eq!(with, without);
    assert_eq!(with.get_pixel(130, 130), OPAQUE_RED);
    assert_eq!(with.get_pixel(150, 150), OPAQUE_BLUE);
}

#[test]
fn corners_of_the_projection_error_are_in_drawing_order() {
    let layer = Layer {
        top_left: Position { x: 1, y: 2 },
        bottom_left: Position { x: 3, y: 4 },
        top_right: Position { x: 5, y: 6 },
        bottom_right: Position { x: 7, y: 8 },
        ..rect(0, 0, 0, 0, 1, RED)
    };
    let sa = artwork(vec![layer]);
    match strict().draw_projected(&sa, &vec![None], (256, 256), (193, 96)) {
        Err(SARError::ProjectionError(_, to)) => assert_eq!(to, [(1, 2), (5, 6), (7, 8), (3, 4)]),
        other => panic!("{:?}", other),
    }
}

#[test]
fn missing_symbol_is_an_error_when_strict() {
    for id in [0u16, 81, 239, 769, 1023] {
        let sa = artwork(vec![rect(100, 100, 140, 140, 1, RED), rect(10, 10, 50, 50, id, BLUE)]);
        match whole(&strict(), &sa) {
            Err(SARError::SymbolNotFound(found)) => assert_eq!(found, SymbolId::new(id as u32)),
            other => panic!("{:?}", other),
        }
    }
}

#[test]
fn missing_symbol_is_skipped_when_lenient() {
    let top = rect(100, 100, 140, 140, 1, RED);
    let lost = rect(90, 90, 200, 200, 0, BLUE);
    let bottom = rect(120, 120, 160, 160, 2, BLUE);
    let with = whole(&lenient(), &artwork(vec![lost, top, lost, bottom, lost])).unwrap();
    let without = whole(&lenient(), &artwork(vec![top, bottom])).unwrap();
    assert_eq!(with, without);
    assert_eq!(with.get_pixel(195, 195), CLEAR);
}

#[test]
fn the_failure_met_first_is_the_one_nearest_the_end() {
    let lost = rect(10, 10, 50, 50, 0, BLUE);
    let point = rect(77, 77, 77, 77, 1, RED);
    let fine = rect(100, 100, 140, 140, 1, RED);
    assert!(matches!(
        whole(&strict(), &artwork(vec![lost, fine, point])),
        Err(SARError::ProjectionError(_, _))
    ));
    assert!(matches!(
        whole(&strict(), &artwork(vec![point, fine, lost, fine])),
        Err(SARError::SymbolNotFound(_))
    ));
    // a layer without symbol and without projection lacks its symbol first
    let both = rect(77, 77, 77, 77, 0, RED);
    assert!(matches!(whole(&strict(), &artwork(vec![both])), Err(SARError::SymbolNotFound(_))));
}

#[test]
fn colour_sheet_keeps_its_own_colour() {
    let sa = artwork(vec![rect(100, 100, 140, 140, 721, BLUE)]);
    let canvas = whole(&strict(), &sa).unwrap();
    assert_eq!(canvas.get_pixel(120, 120), Color { a: 255, r: 250, g: 120, b: 10 });
    // a mask sheet takes the layer's
    for id in [1u16, 240, 481] {
        let sa = artwork(vec![rect(100, 100, 140, 140, id, BLUE)]);
        assert_eq!(whole(&strict(), &sa).unwrap().get_pixel(120, 120), OPAQUE_BLUE);
    }
}

#[test]
fn transparent_layer_leaves_no_mark() {
    let ghost = rect(100, 100, 140, 140, 1, (0, 63, 63, 63));
    let canvas = whole(&strict(), &artwork(vec![ghost])).unwrap();
    assert_eq!(canvas, Canvas::new(256, 256));
    let bottom = rect(120, 120, 160, 160, 2, BLUE);
    let canvas = whole(&strict(), &artwork(vec![ghost, bottom])).unwrap();
    assert_eq!(canvas.get_pixel(130, 130), OPAQUE_BLUE);
}

#[test]
fn half_transparent_layer_mixes_with_what_is_below() {
    let veil = rect(100, 100, 140, 140, 1, (3, 63, 0, 0));
    let bottom = rect(120, 120, 160, 160, 2, BLUE);
    let canvas = whole(&strict(), &artwork(vec![veil, bottom])).unwrap();
    let mut expected = Rgba([0u8, 0, 252, 255]);
    expected.blend(&Rgba([252, 0, 0, 111]));
    let got = canvas.get_pixel(130, 130);
    assert_eq!([got.r, got.g, got.b, got.a], expected.0);
    assert!(got.a >= 254);
    assert!(got.r > 100 && got.r < 120 && got.b > 130 && got.b < 150 && got.g == 0);
    // over nothing, the veil keeps its colour and alpha
    let alone = canvas.get_pixel(105, 105);
    assert_eq!(alone.a, 111);
    assert!(alone.r >= 251);
}

#[test]
fn blend_follows_the_alpha_of_the_upper_pixel() {
    let below = Color { a: 200, r: 10, g: 20, b: 30 };
    let clear = Color { a: 0, r: 99, g: 98, b: 97 };
    let solid = Color { a: 255, r: 1, g: 2, b: 3 };
    assert_eq!(blend(below, clear), below);
    assert_eq!(blend(below, solid), solid);
    assert_eq!(blend(CLEAR, CLEAR), CLEAR);

    let veil = Color { a: 128, r: 255, g: 255, b: 255 };
    let black = Color { a: 255, r: 0, g: 0, b: 0 };
    let mixed = blend(black, veil);
    assert_ne!(mixed, black);
    assert_ne!(mixed, veil);
    assert!(mixed.a >= 254);
    assert!(mixed.r == mixed.g && mixed.g == mixed.b && (127..=129).contains(&mixed.r));
    // the order of the two matters
    assert_ne!(blend(veil, black), mixed);
    assert_eq!(blend(veil, black), black);
    // channels are not swapped on the way
    let tint = blend(black, Color { a: 128, r: 200, g: 100, b: 0 });
    assert!(tint.r > tint.g && tint.g > tint.b && tint.b == 0);
    for (bg, fg) in [(below, veil), (veil, below), (CLEAR, veil), (black, below)] {
        let mut expected = Rgba([bg.r, bg.g, bg.b, bg.a]);
        expected.blend(&Rgba([fg.r, fg.g, fg.b, fg.a]));
        let got = blend(bg, fg);
        assert_eq!([got.r, got.g, got.b, got.a], expected.0);
    }
}

#[test]
fn render_symbol_paints_where_the_sprite_has_alpha() {
    let green = Color { a: 255, r: 0, g: 200, b: 0 };
    let mut base = Canvas::new(3, 2);
    base.put_pixel(0, 0, green);
    base.put_pixel(1, 0, green);
    let mut symbol = Canvas::new(3, 2);
    let mark = Color { a: 1, r: 9, g: 9, b: 9 };
    symbol.put_pixel(1, 0, mark);
    symbol.put_pixel(2, 1, Color { a: 255, r: 5, g: 6, b: 7 });

    let mut tinted = base.clone();
    SymbolArtDrawer::render_symbol(&mut tinted, &symbol, RenderColor::Color(OPAQUE_RED));
    assert_eq!(tinted.get_pixel(0, 0), green);
    assert_eq!(tinted.get_pixel(1, 0), OPAQUE_RED);
    assert_eq!(tinted.get_pixel(2, 1), OPAQUE_RED);
    assert_eq!(tinted.get_pixel(0, 1), CLEAR);
    assert_eq!(tinted.get_pixel(2, 0), CLEAR);

    let mut own = base.clone();
    SymbolArtDrawer::render_symbol(&mut own, &symbol, RenderColor::Sprite);
    assert_eq!(own.get_pixel(0, 0), green);
    assert_eq!(own.get_pixel(1, 0), blend(green, mark));
    assert_ne!(own.get_pixel(1, 0), mark);
    assert_eq!(own.get_pixel(2, 1), Color { a: 255, r: 5, g: 6, b: 7 });
    assert_eq!(own.get_pixel(0, 1), CLEAR);
}

#[test]
fn render_symbol_reads_a_larger_sprite_by_position() {
    let mut base = Canvas::new(2, 2);
    let mut symbol = Canvas::new(5, 3);
    symbol.put_pixel(1, 1, Color { a: 255, r: 1, g: 1, b: 1 });
    symbol.put_pixel(4, 0, Color { a: 255, r: 2, g: 2, b: 2 });
    symbol.put_pixel(0, 2, Color { a: 255, r: 3, g: 3, b: 3 });
    SymbolArtDrawer::render_symbol(&mut base, &symbol, RenderColor::Sprite);
    assert_eq!(base.get_pixel(1, 1), Color { a: 255, r: 1, g: 1, b: 1 });
    assert_eq!(base.get_pixel(0, 0), CLEAR);
    assert_eq!(base.get_pixel(1, 0), CLEAR);
    assert_eq!(base.get_pixel(0, 1), CLEAR);
}

#[test]
fn warped_sprite_keeps_the_sprite_s_pixels() {
    // a colour sheet whose cell 1 is half green, half violet
    let mut color = plain_sheet(1, Color { a: 255, r: 0, g: 255, b: 0 });
    for y in 0..64 {
        for x in 96..128 {
            color.put_pixel(x, y, Color { a: 255, r: 255, g: 0, b: 255 });
        }
    }
    let mask = plain_sheet(1, Color { a: 255, r: 0, g: 0, b: 0 });
    let drawer = SymbolArtDrawer::new(Resource::from_sheets(mask.clone(), mask.clone(), mask, color))
        .with_raise_error(true);
    let sa = artwork(vec![rect(64, 64, 192, 192, 721, RED)]);
    let canvas = whole(&drawer, &sa).unwrap();
    assert_eq!(canvas.get_pixel(80, 100), Color { a: 255, r: 0, g: 255, b: 0 });
    assert_eq!(canvas.get_pixel(180, 100), Color { a: 255, r: 255, g: 0, b: 255 });
    assert_eq!(canvas.get_pixel(30, 100), CLEAR);
    for p in &canvas.pixels {
        assert!(*p == CLEAR || p.a == 255 && (p.g == 255) != (p.r == 255 && p.b == 255));
    }
    // mirrored: the right corners on the left
    let mut flipped = rect(64, 64, 192, 192, 721, RED);
    flipped.top_left.x = 192;
    flipped.bottom_left.x = 192;
    flipped.top_right.x = 64;
    flipped.bottom_right.x = 64;
    let canvas = whole(&drawer, &artwork(vec![flipped])).unwrap();
    assert_eq!(canvas.get_pixel(80, 100), Color { a: 255, r: 255, g: 0, b: 255 });
    assert_eq!(canvas.get_pixel(180, 100), Color { a: 255, r: 0, g: 255, b: 0 });
}

#[test]
fn canvas_of_twice_the_size() {
    let top = rect(100, 100, 140, 140, 1, RED);
    let bottom = rect(120, 120, 160, 160, 2, BLUE);
    let sa = artwork(vec![top, bottom]);
    let image = strict().draw_projected(&sa, &projections(&sa, 2.0), (512, 512), (386, 192)).unwrap();
    assert_eq!((image.width(), image.height()), (386, 192));
    // the view starts at (256 - 193, 256 - 96) of the canvas
    assert_eq!(image.get_pixel(260 - 63, 260 - 160), OPAQUE_RED);
    assert_eq!(image.get_pixel(300 - 63, 300 - 160), OPAQUE_BLUE);
    assert_eq!(image.get_pixel(0, 0), CLEAR);
}

#[test]
fn canvas_without_pixels() {
    let sa = artwork(vec![rect(100, 100, 140, 140, 1, RED)]);
    for size in [(0u32, 0u32), (0, 7), (7, 0)] {
        let image = strict().draw_projected(&sa, &projections(&sa, 1.0), size, (0, 0)).unwrap();
        assert_eq!((image.width(), image.height()), (0, 0));
        assert!(image.pixels.is_empty());
    }
    // failures are told all the same
    let lost = artwork(vec![rect(100, 100, 140, 140, 0, RED)]);
    assert!(matches!(
        strict().draw_projected(&lost, &projections(&lost, 1.0), (0, 0), (0, 0)),
        Err(SARError::SymbolNotFound(_))
    ));
}

#[test]
fn skewed_quad_is_drawn_inside_its_corners() {
    let layer = Layer {
        top_left: Position { x: 100, y: 50 },
        top_right: Position { x: 200, y: 80 },
        bottom_right: Position { x: 180, y: 200 },
        bottom_left: Position { x: 60, y: 150 },
        ..rect(0, 0, 0, 0, 1, RED)
    };
    let canvas = whole(&strict(), &artwork(vec![layer])).unwrap();
    assert_eq!(canvas.get_pixel(130, 120), OPAQUE_RED);
    assert_eq!(canvas.get_pixel(105, 60), OPAQUE_RED);
    assert_eq!(canvas.get_pixel(175, 190), OPAQUE_RED);
    assert_eq!(canvas.get_pixel(60, 50), CLEAR);
    assert_eq!(canvas.get_pixel(200, 200), CLEAR);
    assert_eq!(canvas.get_pixel(220, 80), CLEAR);
}
