use cast2gif::ordering::OrderedFrameIter;
use cast2gif::types::{RgbaFrame, RgbaImage};

fn frame(index: u64) -> RgbaFrame {
    let shade = index as u8;
    RgbaFrame {
        index,
        time: index * 100,
        image: RgbaImage::new(vec![shade, shade, shade, 255], 1, 1).unwrap(),
    }
}

fn frames(indices: &[u64]) -> Vec<RgbaFrame> {
    indices.iter().map(|i| frame(*i)).collect()
}

fn indices(frames: &[RgbaFrame]) -> Vec<u64> {
    frames.iter().map(|f| f.index).collect()
}

#[test]
fn every_arrival_order_of_four_frames_comes_out_ascending() {
    let mut order = vec![0u64, 1, 2, 3];
    let mut seen = 0;
    // Heap's algorithm, iteratively.
    let mut c = [0usize; 4];
    let mut i = 0;
    loop {
        let mut iter = OrderedFrameIter::new(frames(&order));
        let out = iter.drain();
        assert_eq!(indices(&out), vec![0, 1, 2, 3]);
        for f in &out {
            assert_eq!(f.time, f.index * 100);
            assert_eq!(f.image.pixels()[0], f.index as u8);
        }
        assert_eq!(iter.buffered(), 0);
        seen += 1;
        while i < 4 && c[i] >= i {
            c[i] = 0;
            i += 1;
        }
        if i >= 4 {
            break;
        }
        if i % 2 == 0 {
            order.swap(0, i);
        } else {
            order.swap(c[i], i);
        }
        c[i] += 1;
        i = 0;
    }
    assert_eq!(seen, 24);
}

#[test]
fn early_frames_wait_in_the_buffer() {
    let mut iter = OrderedFrameIter::new(frames(&[2, 1, 0, 3]));
    assert_eq!(iter.next().unwrap().index, 0);
    assert_eq!(iter.buffered(), 2);
    assert_eq!(iter.next().unwrap().index, 1);
    assert_eq!(iter.buffered(), 1);
    assert_eq!(iter.next().unwrap().index, 2);
    assert_eq!(iter.buffered(), 0);
    assert_eq!(iter.next().unwrap().index, 3);
    assert!(iter.next().is_none());
}

#[test]
fn wanted_frame_is_handed_on_without_buffering() {
    let mut iter = OrderedFrameIter::new(frames(&[0, 1]));
    assert_eq!(iter.next().unwrap().index, 0);
    assert_eq!(iter.buffered(), 0);
}

#[test]
fn missing_frame_stops_the_output() {
    let mut iter = OrderedFrameIter::new(frames(&[0, 2, 3]));
    assert_eq!(iter.next().unwrap().index, 0);
    assert!(iter.next().is_none());
    assert_eq!(iter.buffered(), 2);
    assert!(iter.next().is_none());
    assert!(matches!(iter.finish(), Err(cast2gif::Error::FramesOutOfSequence(2))));
    iter.push(frame(1));
    assert_eq!(indices(&iter.drain()), vec![1, 2, 3]);
}

#[test]
fn frames_pushed_later_are_put_in_order() {
    let mut iter = OrderedFrameIter::new(Vec::new());
    assert!(iter.next().is_none());
    iter.push(frame(1));
    assert!(iter.next().is_none());
    assert_eq!(iter.buffered(), 1);
    iter.push(frame(0));
    assert_eq!(iter.next().unwrap().index, 0);
    assert_eq!(iter.next().unwrap().index, 1);
    assert!(iter.next().is_none());
}

#[test]
fn duplicate_index_is_reported_at_the_end() {
    let mut iter = OrderedFrameIter::new(frames(&[1, 0, 1, 2]));
    assert_eq!(indices(&iter.drain()), vec![0, 1, 2]);
    assert!(matches!(iter.finish(), Err(cast2gif::Error::FramesOutOfSequence(1))));
}

#[test]
fn complete_set_of_frames_finishes_without_error() {
    let mut iter = OrderedFrameIter::new(frames(&[3, 1, 0, 2]));
    assert_eq!(iter.drain().len(), 4);
    assert!(iter.finish().is_ok());
    assert!(OrderedFrameIter::new(Vec::new()).finish().is_ok());
}

#[test]
fn frames_not_yet_looked_at_count_as_left_over() {
    let iter = OrderedFrameIter::new(frames(&[0, 1]));
    assert!(matches!(iter.finish(), Err(cast2gif::Error::FramesOutOfSequence(2))));
}

#[test]
fn drain_of_nothing_is_empty() {
    let mut iter = OrderedFrameIter::new(Vec::new());
    assert!(iter.drain().is_empty());
}

#[test]
fn image_of_wrong_length_is_refused() {
    assert!(RgbaImage::new(vec![0; 7], 1, 2).is_none());
    assert!(RgbaImage::new(vec![0; 8], 1, 2).is_some());
    assert!(RgbaImage::new(vec![0; 8], usize::MAX, 2).is_none());
    assert!(RgbaImage::new(Vec::new(), 0, 5).is_some());
    let image = RgbaImage::new(vec![9; 24], 3, 2).unwrap();
    assert_eq!((image.width(), image.height()), (3, 2));
    let (pixels, width, height) = image.into_contiguous_buf();
    assert_eq!((pixels.len(), width, height), (24, 3, 2));
}
