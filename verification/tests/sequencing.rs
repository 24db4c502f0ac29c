use cast2gif::sequencer::{encode_frame, frame_delay, sequence_gif, try_to_u16};
use cast2gif::types::{RgbaFrame, RgbaImage};
use cast2gif::{
    CastProgressHandler, CastRenderProgress, Error, ImageDimension, ImageError,
    NullProgressHandler,
};

struct Recorder {
    seen: Vec<CastRenderProgress>,
}

impl CastProgressHandler for Recorder {
    fn update_progress(&mut self, progress: &CastRenderProgress) {
        self.seen.push(*progress);
    }
}

fn solid(index: u64, time: u64, width: usize, height: usize, rgba: [u8; 4]) -> RgbaFrame {
    let mut pixels = Vec::new();
    for _ in 0..width * height {
        pixels.extend_from_slice(&rgba);
    }
    RgbaFrame { index, time, image: RgbaImage::new(pixels, width, height).unwrap() }
}

#[test]
fn side_that_fits_sixteen_bits_is_kept() {
    assert_eq!(try_to_u16(0, ImageDimension::Width), Ok(0));
    assert_eq!(try_to_u16(480, ImageDimension::Width), Ok(480));
    assert_eq!(try_to_u16(65535, ImageDimension::Height), Ok(65535));
}

#[test]
fn side_that_does_not_fit_names_the_side() {
    assert_eq!(
        try_to_u16(65536, ImageDimension::Width),
        Err(ImageError::InvalidDimension(ImageDimension::Width, 65536))
    );
    assert_eq!(
        try_to_u16(usize::MAX, ImageDimension::Height),
        Err(ImageError::InvalidDimension(ImageDimension::Height, usize::MAX))
    );
}

#[test]
fn dimension_names_are_lower_case() {
    assert_eq!(ImageDimension::Width.name(), "width");
    assert_eq!(ImageDimension::Height.name(), "height");
}

#[test]
fn delay_is_the_gap_in_units_rounded_to_nearest() {
    assert_eq!(frame_delay(0, 0), 0);
    assert_eq!(frame_delay(100_000, 0), 0);
    assert_eq!(frame_delay(4_999_999, 0), 0);
    assert_eq!(frame_delay(5_000_000, 0), 1);
    assert_eq!(frame_delay(14_999_999, 0), 1);
    assert_eq!(frame_delay(15_000_000, 0), 2);
    assert_eq!(frame_delay(30_000_000, 10_000_000), 2);
    assert_eq!(frame_delay(1_000_007_000_000, 1_000_000_000_000), 1);
}

#[test]
fn delay_of_a_frame_that_is_not_later_is_zero() {
    assert_eq!(frame_delay(10, 10), 0);
    assert_eq!(frame_delay(0, 50_000_000), 0);
}

#[test]
fn delay_stops_at_sixteen_bits() {
    assert_eq!(frame_delay(655_350_000_000, 0), 65535);
    assert_eq!(frame_delay(655_344_999_999, 0), 65534);
    assert_eq!(frame_delay(655_345_000_000, 0), 65535);
    assert_eq!(frame_delay(u64::MAX, 0), 65535);
    assert_eq!(frame_delay(u64::MAX, 1), 65535);
}

#[test]
fn frame_is_reduced_to_a_palette() {
    let image = RgbaImage::new(vec![255, 0, 0, 255, 0, 0, 255, 255], 2, 1).unwrap();
    let frame = RgbaFrame { index: 0, time: 25_000_000, image };
    let gif = encode_frame(frame, 10_000_000).expect("a frame that fits");
    assert_eq!((gif.width, gif.height), (2, 1));
    assert_eq!(gif.delay, 2);
    assert_eq!(gif.palette, Some(vec![0, 0, 255, 255, 0, 0]));
    assert_eq!(gif.buffer, vec![1, 0]);
    assert_eq!(gif.transparent, None);
}

#[test]
fn frame_with_a_transparent_pixel_names_its_index() {
    let image = RgbaImage::new(vec![9, 9, 9, 0, 7, 7, 7, 200], 1, 2).unwrap();
    let gif = encode_frame(RgbaFrame { index: 0, time: 0, image }, 0).unwrap();
    assert_eq!(gif.buffer.len(), 2);
    let transparent = gif.transparent.expect("a transparent index");
    assert_eq!(gif.buffer[0], transparent);
    assert_ne!(gif.buffer[1], transparent);
}

#[test]
fn frame_too_wide_is_refused() {
    let image = RgbaImage::new(vec![0; 65536 * 4], 65536, 1).unwrap();
    let r = encode_frame(RgbaFrame { index: 0, time: 0, image }, 0);
    assert_eq!(r.err(), Some(ImageError::InvalidDimension(ImageDimension::Width, 65536)));
}

#[test]
fn frame_too_high_is_refused() {
    let image = RgbaImage::new(vec![0; 65536 * 4], 1, 65536).unwrap();
    let r = encode_frame(RgbaFrame { index: 0, time: 0, image }, 0);
    assert_eq!(r.err(), Some(ImageError::InvalidDimension(ImageDimension::Height, 65536)));
}

#[test]
fn frames_are_sequenced_by_index_and_timed() {
    let frames = vec![
        solid(2, 27_000_000, 2, 2, [0, 0, 30, 255]),
        solid(0, 6_000_000, 2, 2, [0, 0, 10, 255]),
        solid(3, 27_000_000, 2, 2, [0, 0, 40, 255]),
        solid(1, 12_000_000, 2, 2, [0, 0, 20, 255]),
    ];
    let mut progress = CastRenderProgress { count: 4, raster_progress: 4, sequence_progress: 0 };
    let mut recorder = Recorder { seen: Vec::new() };
    let animation = sequence_gif(frames, &mut progress, &mut recorder).expect("an animation");
    assert_eq!((animation.width, animation.height), (2, 2));
    let delays: Vec<u16> = animation.frames.iter().map(|f| f.delay).collect();
    assert_eq!(delays, vec![1, 1, 2, 0]);
    let blues: Vec<u8> = animation.frames.iter().map(|f| f.palette.as_ref().unwrap()[2]).collect();
    assert_eq!(blues, vec![10, 20, 30, 40]);
    assert_eq!(progress, CastRenderProgress { count: 4, raster_progress: 4, sequence_progress: 4 });
    let steps: Vec<u64> = recorder.seen.iter().map(|p| p.sequence_progress).collect();
    assert_eq!(steps, vec![1, 2, 3, 4]);
}

#[test]
fn canvas_has_the_size_of_the_first_arrival() {
    let frames = vec![solid(1, 0, 3, 1, [1, 1, 1, 255]), solid(0, 0, 2, 2, [2, 2, 2, 255])];
    let mut progress = CastRenderProgress::default();
    let animation = sequence_gif(frames, &mut progress, &mut NullProgressHandler).unwrap();
    assert_eq!((animation.width, animation.height), (3, 1));
    assert_eq!((animation.frames[0].width, animation.frames[0].height), (2, 2));
    assert_eq!((animation.frames[1].width, animation.frames[1].height), (3, 1));
}

#[test]
fn sequencing_nothing_is_an_error() {
    let mut progress = CastRenderProgress::default();
    match sequence_gif(Vec::new(), &mut progress, &mut NullProgressHandler) {
        Err(Error::Generic(m)) => assert_eq!(m, "Got a gif with no frames"),
        _ => panic!("an animation without frames"),
    }
    assert_eq!(progress, CastRenderProgress::default());
}

#[test]
fn sequencing_stops_at_a_frame_that_does_not_fit() {
    let wide = RgbaFrame {
        index: 1,
        time: 0,
        image: RgbaImage::new(vec![0; 65536 * 4], 65536, 1).unwrap(),
    };
    let frames = vec![solid(0, 0, 1, 1, [0, 0, 0, 255]), solid(2, 0, 1, 1, [0, 0, 0, 255]), wide];
    let mut progress = CastRenderProgress::default();
    match sequence_gif(frames, &mut progress, &mut NullProgressHandler) {
        Err(Error::ImageError(e)) => {
            assert_eq!(e, ImageError::InvalidDimension(ImageDimension::Width, 65536))
        }
        _ => panic!("a frame that does not fit was sequenced"),
    }
    assert_eq!(progress.sequence_progress, 2);
}

#[test]
fn missing_index_is_an_error_at_the_end() {
    let frames = vec![
        solid(0, 0, 1, 1, [0, 0, 0, 255]),
        solid(2, 0, 1, 1, [0, 0, 0, 255]),
        solid(3, 0, 1, 1, [0, 0, 0, 255]),
    ];
    let mut progress = CastRenderProgress::default();
    match sequence_gif(frames, &mut progress, &mut NullProgressHandler) {
        Err(Error::FramesOutOfSequence(left)) => assert_eq!(left, 2),
        _ => panic!("a missing index went unnoticed"),
    }
    assert_eq!(progress.sequence_progress, 1);
}

#[test]
fn duplicate_index_is_an_error_at_the_end() {
    let frames = vec![
        solid(1, 0, 1, 1, [0, 0, 0, 255]),
        solid(0, 0, 1, 1, [0, 0, 0, 255]),
        solid(1, 0, 1, 1, [9, 9, 9, 255]),
        solid(2, 0, 1, 1, [0, 0, 0, 255]),
    ];
    let mut progress = CastRenderProgress::default();
    match sequence_gif(frames, &mut progress, &mut NullProgressHandler) {
        Err(Error::FramesOutOfSequence(left)) => assert_eq!(left, 1),
        _ => panic!("a duplicate index went unnoticed"),
    }
    assert_eq!(progress.sequence_progress, 3);
}

#[test]
fn lone_frame_with_a_late_index_is_an_error() {
    let mut progress = CastRenderProgress::default();
    match sequence_gif(vec![solid(1, 0, 1, 1, [0, 0, 0, 255])], &mut progress, &mut NullProgressHandler) {
        Err(Error::FramesOutOfSequence(left)) => assert_eq!(left, 1),
        _ => panic!("a frame out of sequence went unnoticed"),
    }
    assert_eq!(progress.sequence_progress, 0);
}
