use animbg::config::{ConfigError, DisplayContext};
use animbg::frame::FrameBuffer;
use animbg::rate::Rate;
use animbg::timeline::Timeline;

fn dummy_frame() -> FrameBuffer {
    FrameBuffer { width: 1, height: 1, data: vec![0] }
}

fn source(frames: usize, num: u32, den: u32) -> DisplayContext {
    let mut images = Vec::new();
    let mut i = 0;
    while i < frames {
        images.push(dummy_frame());
        i += 1;
    }
    DisplayContext {
        width: 1,
        height: 1,
        x: 0,
        y: 0,
        bitmap_dir: String::new(),
        fps: Rate { num, den },
        images,
    }
}

#[test]
fn two_sources_one_twice_as_fast() {
    // Source A: 2 frames at 1 fps; source B: 4 frames at 2 fps; both
    // play for two seconds. The output runs at 2 fps for 4 frames; A
    // advances every other tick, B every tick.
    let sources = vec![source(2, 1, 1), source(4, 2, 1)];
    let tl = Timeline::new(&sources).unwrap();
    assert_eq!((tl.output_rate.num, tl.output_rate.den), (2, 1));
    assert_eq!(tl.output_frame_count, 4);
    let a: Vec<usize> = (0..4).map(|f| tl.index_map(f, 0)).collect();
    let b: Vec<usize> = (0..4).map(|f| tl.index_map(f, 1)).collect();
    assert_eq!(a, vec![0, 0, 1, 1]);
    assert_eq!(b, vec![0, 1, 2, 3]);
}

#[test]
fn single_source_is_trivial() {
    let sources = vec![source(5, 3, 1)];
    let tl = Timeline::new(&sources).unwrap();
    assert_eq!((tl.output_rate.num, tl.output_rate.den), (3, 1));
    assert_eq!(tl.output_frame_count, 5);
    for f in 0..5 {
        assert_eq!(tl.index_map(f, 0), f);
    }
    // The next cycle wraps around.
    assert_eq!(tl.index_map(5, 0), 0);
}

#[test]
fn equal_rates_and_lengths_collapse_to_identity() {
    let sources = vec![source(3, 12, 1), source(3, 24, 2), source(3, 12, 1)];
    let tl = Timeline::new(&sources).unwrap();
    assert_eq!(tl.output_frame_count, 3);
    for f in 0..3 {
        for s in 0..3 {
            assert_eq!(tl.index_map(f, s), f);
        }
    }
}

#[test]
fn fractional_rates_compare_exactly() {
    // 23.976 fps beats 23.9 fps.
    let sources = vec![source(10, 239, 10), source(10, 23976, 1000)];
    let tl = Timeline::new(&sources).unwrap();
    assert_eq!((tl.output_rate.num, tl.output_rate.den), (23976, 1000));
}

#[test]
fn no_sources_is_an_error() {
    let sources: Vec<DisplayContext> = vec![];
    assert_eq!(Timeline::new(&sources).unwrap_err(), ConfigError::NoSources);
}

#[test]
fn a_zero_rate_is_an_error() {
    let sources = vec![source(2, 1, 1), source(2, 0, 1)];
    assert_eq!(Timeline::new(&sources).unwrap_err(), ConfigError::NonPositiveRate);
}

#[test]
fn an_empty_source_is_an_error() {
    let sources = vec![source(2, 1, 1), source(0, 1, 1), source(2, 1, 1)];
    assert_eq!(
        Timeline::new(&sources).unwrap_err(),
        ConfigError::EmptyFrames { source: 1 }
    );
}

#[test]
fn the_longest_source_decides_the_count() {
    // Three frames at 1 fps play three seconds; at the output rate of
    // 2 fps that is six output frames.
    let sources = vec![source(3, 1, 1), source(4, 2, 1)];
    let tl = Timeline::new(&sources).unwrap();
    assert_eq!(tl.output_frame_count, 6);
}

#[test]
fn the_count_rounds_up() {
    // Five frames at 3 fps last 5/3 s; at 7 fps that is 35/3 = 11.67
    // output frames, rounded up to 12 so the slow source finishes.
    let sources = vec![source(5, 3, 1), source(2, 7, 1)];
    let tl = Timeline::new(&sources).unwrap();
    assert_eq!(tl.output_frame_count, 12);
}

#[test]
fn frame_interval_truncates_microseconds() {
    let tl = Timeline::new(&vec![source(1, 60, 1)]).unwrap();
    assert_eq!(tl.frame_interval_micros(), 16666);
    let tl = Timeline::new(&vec![source(1, 23976, 1000)]).unwrap();
    assert_eq!(tl.frame_interval_micros(), 41708);
    let tl = Timeline::new(&vec![source(1, 1, 1)]).unwrap();
    assert_eq!(tl.frame_interval_micros(), 1_000_000);
}
