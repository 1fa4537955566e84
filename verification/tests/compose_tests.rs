use animbg::compose::{compose_sequence, composite_frame, CompositeError};
use animbg::config::DisplayContext;
use animbg::frame::FrameBuffer;
use animbg::rate::Rate;
use animbg::timeline::Timeline;

fn solid(w: usize, h: usize, pixel: u32) -> FrameBuffer {
    FrameBuffer { width: w, height: h, data: vec![pixel; w * h] }
}

fn layer(frames: Vec<FrameBuffer>, num: u32, rect: (i32, i32, i32, i32)) -> DisplayContext {
    DisplayContext {
        width: rect.2,
        height: rect.3,
        x: rect.0,
        y: rect.1,
        bitmap_dir: String::new(),
        fps: Rate { num, den: 1 },
        images: frames,
    }
}

const RED: u32 = 0xffff_0000;
const BLUE: u32 = 0xff00_00ff;
const CLEAR: u32 = 0x0000_0000;

#[test]
fn first_declared_source_is_on_top() {
    // A (red) and B (blue) both cover the whole 2x2 canvas; A is
    // declared first, so every pixel shows A.
    let a = layer(vec![solid(1, 1, RED)], 1, (0, 0, 2, 2));
    let b = layer(vec![solid(1, 1, BLUE)], 1, (0, 0, 2, 2));
    let sources = vec![a, b];
    let tl = Timeline::new(&sources).unwrap();
    let frame = composite_frame(&sources, &tl, 0, 2, 2);
    assert_eq!(frame.data, vec![RED; 4]);
}

#[test]
fn lower_layers_show_through_transparency() {
    // A is fully transparent, so B's blue shows everywhere.
    let a = layer(vec![solid(1, 1, CLEAR)], 1, (0, 0, 2, 2));
    let b = layer(vec![solid(1, 1, BLUE)], 1, (0, 0, 2, 2));
    let sources = vec![a, b];
    let tl = Timeline::new(&sources).unwrap();
    let frame = composite_frame(&sources, &tl, 0, 2, 2);
    assert_eq!(frame.data, vec![BLUE; 4]);
}

#[test]
fn partial_overlap_layers_by_rectangle() {
    // B covers the whole 2x1 canvas; A only the left pixel.
    let a = layer(vec![solid(1, 1, RED)], 1, (0, 0, 1, 1));
    let b = layer(vec![solid(1, 1, BLUE)], 1, (0, 0, 2, 1));
    let sources = vec![a, b];
    let tl = Timeline::new(&sources).unwrap();
    let frame = composite_frame(&sources, &tl, 0, 2, 1);
    assert_eq!(frame.data, vec![RED, BLUE]);
}

#[test]
fn the_cache_holds_one_frame_per_output_index() {
    // The two-source scenario: 2 frames at 1 fps under 4 frames at
    // 2 fps gives 4 composited output frames.
    let a = layer(vec![solid(1, 1, RED), solid(1, 1, BLUE)], 1, (0, 0, 2, 2));
    let b = layer(
        vec![solid(1, 1, 1), solid(1, 1, 2), solid(1, 1, 3), solid(1, 1, 4)],
        2,
        (0, 0, 2, 2),
    );
    let sources = vec![a, b];
    let tl = Timeline::new(&sources).unwrap();
    let cache = compose_sequence(&sources, &tl, 2, 2).unwrap();
    assert_eq!(cache.len(), 4);
    // A is opaque and on top: frames 0 and 1 are red, 2 and 3 blue.
    assert_eq!(cache[0].data, vec![RED; 4]);
    assert_eq!(cache[1].data, vec![RED; 4]);
    assert_eq!(cache[2].data, vec![BLUE; 4]);
    assert_eq!(cache[3].data, vec![BLUE; 4]);
}

#[test]
fn animation_advances_under_a_transparent_top_layer() {
    let a = layer(vec![solid(1, 1, CLEAR), solid(1, 1, CLEAR)], 1, (0, 0, 1, 1));
    let b = layer(
        vec![solid(1, 1, 0xff00_0001), solid(1, 1, 0xff00_0002), solid(1, 1, 0xff00_0003),
            solid(1, 1, 0xff00_0004)],
        2,
        (0, 0, 1, 1),
    );
    let sources = vec![a, b];
    let tl = Timeline::new(&sources).unwrap();
    let cache = compose_sequence(&sources, &tl, 1, 1).unwrap();
    let shown: Vec<u32> = cache.iter().map(|f| f.data[0]).collect();
    assert_eq!(shown, vec![0xff00_0001, 0xff00_0002, 0xff00_0003, 0xff00_0004]);
}

#[test]
fn a_zero_canvas_is_refused() {
    let a = layer(vec![solid(1, 1, RED)], 1, (0, 0, 1, 1));
    let sources = vec![a];
    let tl = Timeline::new(&sources).unwrap();
    assert_eq!(compose_sequence(&sources, &tl, 0, 2).unwrap_err(), CompositeError::Canvas);
}

#[test]
fn a_degenerate_rectangle_is_refused() {
    let mut a = layer(vec![solid(1, 1, RED)], 1, (0, 0, 1, 1));
    a.width = 0;
    let b = layer(vec![solid(1, 1, BLUE)], 1, (0, 0, 1, 1));
    let sources = vec![b, a];
    let tl = Timeline::new(&sources).unwrap();
    assert_eq!(
        compose_sequence(&sources, &tl, 2, 2).unwrap_err(),
        CompositeError::BadSource { source: 1 }
    );
}

#[test]
fn a_torn_frame_is_refused_with_its_indices() {
    let good = solid(2, 2, RED);
    let torn = FrameBuffer { width: 2, height: 2, data: vec![RED; 3] };
    let a = layer(vec![good, torn], 1, (0, 0, 2, 2));
    let sources = vec![a];
    let tl = Timeline::new(&sources).unwrap();
    assert_eq!(
        compose_sequence(&sources, &tl, 2, 2).unwrap_err(),
        CompositeError::BadFrame { source: 0, frame: 1 }
    );
}

#[test]
fn source_frames_scale_into_their_rectangle() {
    // A 2x1 frame (left red, right blue) stretched over a 4x1 rect.
    let frame = FrameBuffer { width: 2, height: 1, data: vec![RED, BLUE] };
    let a = layer(vec![frame], 1, (0, 0, 4, 1));
    let sources = vec![a];
    let tl = Timeline::new(&sources).unwrap();
    let out = composite_frame(&sources, &tl, 0, 4, 1);
    assert_eq!(out.data, vec![RED, RED, BLUE, BLUE]);
}
