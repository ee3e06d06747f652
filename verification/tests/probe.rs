use vello_probe::probe::{
    canvas_size, draw_scene, pixels_within_tolerance, DrawOp, PaintType, Probe, ProbeRenderer, Rect, Rgba8, SceneRecorder,
};

const RED: Rgba8 = Rgba8 { r: 255, g: 0, b: 0, a: 255 };

fn reference_pixels() -> Vec<[u8; 4]> {
    vec![[255, 0, 0, 255]; 144]
}

fn flatten(pixels: &[[u8; 4]]) -> Vec<u8> {
    pixels.iter().flat_map(|p| p.iter().copied()).collect()
}

#[test]
fn canvas_size_is_twelve_square() {
    assert_eq!(canvas_size(), (12, 12));
}

#[test]
fn draw_scene_paints_canvas_then_centered_rect() {
    let mut recorder = SceneRecorder::new();
    draw_scene(&mut recorder);
    assert_eq!(
        *recorder.ops(),
        vec![
            DrawOp::SetPaint(PaintType::Solid(RED)),
            DrawOp::FillRect(Rect { x0: 0, y0: 0, x1: 12, y1: 12 }),
            DrawOp::SetPaint(PaintType::Solid(RED)),
            DrawOp::FillRect(Rect { x0: 1, y0: 1, x1: 11, y1: 11 }),
        ]
    );
}

#[test]
fn draw_scene_appends_to_earlier_calls() {
    let earlier = Rect { x0: 3, y0: 4, x1: 5, y1: 6 };
    let mut recorder = SceneRecorder::new();
    recorder.fill_rect(&earlier);
    draw_scene(&mut recorder);
    assert_eq!(recorder.ops().len(), 5);
    assert_eq!(recorder.ops()[0], DrawOp::FillRect(earlier));
    draw_scene(&mut recorder);
    assert_eq!(recorder.ops().len(), 9);
    assert_eq!(recorder.ops()[1..5], recorder.ops()[5..9]);
}

#[test]
fn scene_rects_lie_within_canvas() {
    let mut recorder = SceneRecorder::new();
    draw_scene(&mut recorder);
    let (w, h) = canvas_size();
    for op in recorder.ops() {
        if let DrawOp::FillRect(r) = op {
            assert!(r.x0 <= r.x1 && r.x1 <= w as u32);
            assert!(r.y0 <= r.y1 && r.y1 <= h as u32);
        }
    }
}

#[test]
fn exact_reference_is_success() {
    let probe = Probe::<()>::from_actual(12, 12, &reference_pixels());
    assert!(probe.is_success());
    assert!(matches!(probe, Probe::Success));
}

#[test]
fn pixels_within_tolerance_is_success() {
    let mut pixels = reference_pixels();
    pixels[0] = [252, 3, 3, 252];
    pixels[143] = [255, 2, 0, 253];
    let probe = Probe::<()>::from_actual(12, 12, &pixels);
    assert!(probe.is_success());
}

#[test]
fn channel_off_by_four_is_error() {
    let mut pixels = reference_pixels();
    pixels[77] = [251, 0, 0, 255];
    let probe = Probe::<()>::from_actual(12, 12, &pixels);
    assert!(!probe.is_success());
    match probe {
        Probe::Error(result) => {
            assert_eq!(result.expected.width, 12);
            assert_eq!(result.expected.height, 12);
            assert_eq!(result.expected.data, flatten(&reference_pixels()));
            assert_eq!(result.actual.width, 12);
            assert_eq!(result.actual.height, 12);
            assert_eq!(result.actual.data, flatten(&pixels));
            assert_eq!(&result.actual.data[308..312], &[251, 0, 0, 255]);
        }
        _ => panic!("expected an error"),
    }
}

#[test]
fn wrong_size_is_error() {
    let pixels = vec![[255, 0, 0, 255]; 143];
    let probe = Probe::<()>::from_actual(11, 13, &pixels);
    match probe {
        Probe::Error(result) => {
            assert_eq!((result.actual.width, result.actual.height), (11, 13));
            assert_eq!(result.actual.data.len(), 572);
        }
        _ => panic!("expected an error"),
    }
    // The right pixel count under the wrong dimensions fails as well.
    let probe = Probe::<()>::from_actual(24, 6, &reference_pixels());
    assert!(!probe.is_success());
}

#[test]
fn empty_image_is_error() {
    let probe = Probe::<()>::from_actual(0, 0, &[]);
    match probe {
        Probe::Error(result) => assert!(result.actual.data.is_empty()),
        _ => panic!("expected an error"),
    }
}

#[test]
fn transparent_actual_against_opaque_reference_is_error() {
    let pixels = vec![[255, 0, 0, 0]; 144];
    assert!(!Probe::<()>::from_actual(12, 12, &pixels).is_success());
}

#[test]
fn is_success_per_variant() {
    assert!(Probe::<u8>::Success.is_success());
    assert!(!Probe::<u8>::RenderError(7).is_success());
    let err = Probe::<()>::from_actual(1, 1, &[[0, 0, 0, 0]]);
    assert!(!err.is_success());
}

#[test]
fn transparent_pixels_match_whatever_their_color() {
    assert!(pixels_within_tolerance(&[10, 200, 30, 0], &[250, 0, 90, 0], 3));
    assert!(pixels_within_tolerance(&[10, 200, 30, 0], &[250, 0, 90, 0], 0));
}

#[test]
fn tolerance_boundary() {
    assert!(pixels_within_tolerance(&[10, 20, 30, 40], &[13, 17, 30, 43], 3));
    assert!(!pixels_within_tolerance(&[10, 20, 30, 40], &[14, 20, 30, 40], 3));
    assert!(pixels_within_tolerance(&[10, 20, 30, 40], &[14, 20, 30, 40], 4));
    // One transparent pixel is not enough.
    assert!(!pixels_within_tolerance(&[10, 20, 30, 0], &[10, 20, 30, 9], 3));
}

#[test]
fn pixel_match_is_symmetric() {
    let a = [100u8, 50, 0, 255];
    let b = [103u8, 47, 2, 252];
    let c = [104u8, 50, 0, 255];
    assert_eq!(pixels_within_tolerance(&a, &b, 3), pixels_within_tolerance(&b, &a, 3));
    assert_eq!(pixels_within_tolerance(&a, &c, 3), pixels_within_tolerance(&c, &a, 3));
}

#[test]
fn tolerance_compares_shared_channels_only() {
    assert!(pixels_within_tolerance(&[10, 20, 30, 40, 99], &[10, 20, 30, 40], 0));
}
