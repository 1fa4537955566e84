use animbg::frame::{blend, FrameBuffer};

#[test]
fn blending_an_opaque_pixel_replaces_the_bottom() {
    assert_eq!(blend(0xff00_00ff, 0xffab_cdef), 0xffab_cdef);
    assert_eq!(blend(0x0000_0000, 0xff12_3456), 0xff12_3456);
}

#[test]
fn blending_a_transparent_pixel_changes_nothing() {
    assert_eq!(blend(0xff00_00ff, 0x00ab_cdef), 0xff00_00ff);
    assert_eq!(blend(0x1234_5678, 0x00ff_ffff), 0x1234_5678);
}

#[test]
fn blending_half_alpha_red_over_opaque_black() {
    // top: a=128 r=255, bottom: a=255 black. Weights: wt = 128*255,
    // wb = 255*127, ws = 65025. Red: 255*32640/65025 = 128; alpha 255.
    assert_eq!(blend(0xff00_0000, 0x80ff_0000), 0xff80_0000);
}

#[test]
fn a_blank_canvas_is_transparent() {
    let c = FrameBuffer::blank(3, 2);
    assert_eq!(c.width, 3);
    assert_eq!(c.height, 2);
    assert_eq!(c.data, vec![0u32; 6]);
}

#[test]
fn nearest_neighbor_upscale_doubles_pixels() {
    // 2x1 source scaled to 4x2: each source column covers two output
    // columns, both rows repeat the single source row.
    let src = FrameBuffer { width: 2, height: 1, data: vec![0xff00_0001, 0xff00_0002] };
    let out = src.scale_nearest(4, 2);
    assert_eq!(out.width, 4);
    assert_eq!(out.height, 2);
    assert_eq!(
        out.data,
        vec![
            0xff00_0001,
            0xff00_0001,
            0xff00_0002,
            0xff00_0002,
            0xff00_0001,
            0xff00_0001,
            0xff00_0002,
            0xff00_0002,
        ]
    );
}

#[test]
fn nearest_neighbor_downscale_picks_every_other_pixel() {
    let src = FrameBuffer { width: 4, height: 1, data: vec![1, 2, 3, 4] };
    let out = src.scale_nearest(2, 1);
    assert_eq!(out.data, vec![1, 3]);
}

#[test]
fn overlay_clips_outside_the_canvas() {
    // A 2x2 opaque layer placed at (-1, -1): only its bottom-right
    // pixel lands on the 2x2 canvas, at (0, 0).
    let mut canvas = FrameBuffer::blank(2, 2);
    let layer = FrameBuffer {
        width: 2,
        height: 2,
        data: vec![0xff00_0001, 0xff00_0002, 0xff00_0003, 0xff00_0004],
    };
    canvas.overlay(&layer, -1, -1);
    assert_eq!(canvas.data, vec![0xff00_0004, 0, 0, 0]);
}

#[test]
fn overlay_places_at_the_offset() {
    let mut canvas = FrameBuffer::blank(3, 2);
    let layer = FrameBuffer { width: 1, height: 1, data: vec![0xffaa_bbcc] };
    canvas.overlay(&layer, 2, 1);
    assert_eq!(canvas.data, vec![0, 0, 0, 0, 0, 0xffaa_bbcc]);
}

#[test]
fn rgba_bytes_round_trip() {
    let fb = FrameBuffer { width: 2, height: 1, data: vec![0x8090_a0b0, 0xff01_0203] };
    let bytes = fb.to_rgba_bytes();
    assert_eq!(bytes, vec![0x90, 0xa0, 0xb0, 0x80, 0x01, 0x02, 0x03, 0xff]);
    let back = FrameBuffer::from_rgba_bytes(2, 1, &bytes).unwrap();
    assert_eq!(back.data, fb.data);
}

#[test]
fn mismatched_byte_count_is_refused() {
    let bytes = vec![0u8; 7];
    assert!(FrameBuffer::from_rgba_bytes(2, 1, &bytes).is_none());
}
