//! Timing and sizing of the frames of the animation.
//!
//! The rendered frames arrive in any order. They are put in order by index,
//! and each becomes one frame of the animation: its sides must fit 16 bits,
//! its colours are reduced to a palette, and its delay is the time since the
//! frame before it.

use vstd::prelude::*;
use vstd::string::*;
use crate::ordering::{
    after_drain,
    drained,
    initial_state,
    lemma_drain_conserves,
    lemma_position_of,
    reassembled,
    unsequenced,
    OrderedFrameIter,
};
use crate::types::{
    CastProgressHandler,
    CastRenderProgress,
    ProgressCmd,
    RgbaFrame,
    RgbaImageView,
};
use crate::{Error, ErrorView, ImageDimension, ImageError};

verus! {

/// How fast the colours are reduced: the fastest setting.
pub const QUANTIZE_SPEED: i32 = 30;

/// Microseconds per unit of delay.
pub const DELAY_UNIT: u64 = 10_000_000;

/// The length of a side as 16 bits, or the error that names the side.
pub fn try_to_u16(x: usize, dim: ImageDimension) -> (r: Result<u16, ImageError>)
    ensures
        r == dimension(x, dim),
{
    if x <= 0xffff {
        Ok(x as u16)
    } else {
        Err(ImageError::InvalidDimension(dim, x))
    }
}

/// The length of a side as 16 bits, or the error that names the side.
pub open spec fn dimension(x: usize, dim: ImageDimension) -> Result<u16, ImageError> {
    if x <= u16::MAX {
        Ok(x as u16)
    } else {
        Err(ImageError::InvalidDimension(dim, x))
    }
}

/// The delay of a frame at `time` that follows a frame at `last`: the time
/// between the two in units of [`DELAY_UNIT`], rounded to the nearest unit
/// with halves rounded up, and no more than 16 bits hold. A frame that is
/// not later than the one before it has no delay.
pub open spec fn delay_of(time: u64, last: u64) -> u16 {
    if time <= last {
        0
    } else if (time - last + DELAY_UNIT / 2) / (DELAY_UNIT as int) > u16::MAX {
        u16::MAX
    } else {
        ((time - last + DELAY_UNIT / 2) / (DELAY_UNIT as int)) as u16
    }
}

/// The delay of a frame at `time` that follows a frame at `last`.
pub fn frame_delay(time: u64, last: u64) -> (delay: u16)
    ensures
        delay == delay_of(time, last),
{
    if time <= last {
        return 0;
    }
    let gap = time - last;
    let units = gap / DELAY_UNIT;
    let rounded = if gap % DELAY_UNIT >= DELAY_UNIT / 2 {
        units + 1
    } else {
        units
    };
    proof {
        lemma_round_half_up(gap as int);
    }
    if rounded > 0xffff {
        0xffff
    } else {
        rounded as u16
    }
}

/// Rounding to the nearest unit is dividing after adding half a unit.
proof fn lemma_round_half_up(gap: int)
    requires
        0 <= gap,
    ensures
        (gap + 5_000_000) / 10_000_000 == gap / 10_000_000 + (if gap % 10_000_000 >= 5_000_000 {
            1int
        } else {
            0int
        }),
{
}

/// One frame of the animation.
#[derive(Debug)]
pub struct GifFrame {
    /// Width in pixels.
    pub width: u16,
    /// Height in pixels.
    pub height: u16,
    /// How long the frame before this one is shown.
    pub delay: u16,
    /// One palette index per pixel, row by row.
    pub buffer: Vec<u8>,
    /// The palette of the frame: three bytes per colour.
    pub palette: Option<Vec<u8>>,
    /// The palette index that stands for a transparent pixel, if any.
    pub transparent: Option<u8>,
}

/// Mathematical model of a [`GifFrame`].
pub struct GifFrameView {
    pub width: u16,
    pub height: u16,
    pub delay: u16,
    pub buffer: Seq<u8>,
    pub palette: Option<Seq<u8>>,
    pub transparent: Option<u8>,
}

/// The view of an optional byte vector.
pub open spec fn bytes_view(bytes: Option<Vec<u8>>) -> Option<Seq<u8>> {
    match bytes {
        Some(b) => Some(b@),
        None => None,
    }
}

impl View for GifFrame {
    type V = GifFrameView;

    open spec fn view(&self) -> GifFrameView {
        GifFrameView {
            width: self.width,
            height: self.height,
            delay: self.delay,
            buffer: self.buffer@,
            palette: bytes_view(self.palette),
            transparent: self.transparent,
        }
    }
}

/// What the colour reduction of the `gif` crate gives for an image of
/// `width` by `height` pixels with the given RGBA bytes, at the given
/// speed: the palette index of each pixel, the palette, and the index of
/// the transparent colour.
pub uninterp spec fn quantized(width: u16, height: u16, pixels: Seq<u8>, speed: i32) -> (
    Seq<u8>,
    Option<Seq<u8>>,
    Option<u8>,
);

/// `gif::Frame::from_rgba_speed`, with the `buffer`, the `palette` and the
/// `transparent` index of the frame it makes. The call is left out where
/// the bytes are not four per pixel or the speed is not between 1 and 30,
/// since it then panics.
#[verifier::external_body]
fn quantize(width: u16, height: u16, pixels: Vec<u8>, speed: i32) -> (out: (
    Vec<u8>,
    Option<Vec<u8>>,
    Option<u8>,
))
    requires
        pixels@.len() == width * height * 4,
        1 <= speed <= 30,
    ensures
        (out.0@, bytes_view(out.1), out.2) == quantized(width, height, pixels@, speed),
{
    let mut pixels = pixels;
    let frame = gif::Frame::from_rgba_speed(width, height, &mut pixels, speed);
    (frame.buffer.into_owned(), frame.palette, frame.transparent)
}

/// The frame of the animation that a rendered frame becomes after a frame
/// at `last`, or the error for the side that does not fit; the width is
/// looked at first.
pub open spec fn gif_frame(image: RgbaImageView, time: u64, last: u64) -> Result<
    GifFrameView,
    ImageError,
> {
    match dimension(image.width as usize, ImageDimension::Width) {
        Err(e) => Err(e),
        Ok(width) => match dimension(image.height as usize, ImageDimension::Height) {
            Err(e) => Err(e),
            Ok(height) => {
                let q = quantized(width, height, image.pixels, QUANTIZE_SPEED);
                Ok(
                    GifFrameView {
                        width,
                        height,
                        delay: delay_of(time, last),
                        buffer: q.0,
                        palette: q.1,
                        transparent: q.2,
                    },
                )
            },
        },
    }
}

/// Makes a rendered frame into a frame of the animation that follows a
/// frame at `last`.
pub fn encode_frame(frame: RgbaFrame, last: u64) -> (r: Result<GifFrame, ImageError>)
    ensures
        match r {
            Ok(g) => gif_frame(frame.image@, frame.time, last) == Ok::<GifFrameView, ImageError>(g@),
            Err(e) => gif_frame(frame.image@, frame.time, last) == Err::<GifFrameView, ImageError>(e),
        },
{
    let time = frame.time;
    let (pixels, width, height) = frame.image.into_contiguous_buf();
    let width = match try_to_u16(width, ImageDimension::Width) {
        Ok(width) => width,
        Err(e) => {
            return Err(e);
        },
    };
    let height = match try_to_u16(height, ImageDimension::Height) {
        Ok(height) => height,
        Err(e) => {
            return Err(e);
        },
    };
    let (buffer, palette, transparent) = quantize(width, height, pixels, QUANTIZE_SPEED);
    Ok(GifFrame { width, height, delay: frame_delay(time, last), buffer, palette, transparent })
}

/// The frames of an animation, with the size of its canvas.
#[derive(Debug)]
pub struct GifAnimation {
    /// Width of the canvas in pixels.
    pub width: u16,
    /// Height of the canvas in pixels.
    pub height: u16,
    /// The frames, in the order in which they are shown.
    pub frames: Vec<GifFrame>,
}

/// Mathematical model of a [`GifAnimation`].
pub struct GifAnimationView {
    pub width: u16,
    pub height: u16,
    pub frames: Seq<GifFrameView>,
}

/// The views of the frames of an animation, in order.
pub open spec fn frames_view(frames: Seq<GifFrame>) -> Seq<GifFrameView> {
    Seq::new(frames.len(), |i: int| frames[i]@)
}

impl View for GifAnimation {
    type V = GifAnimationView;

    open spec fn view(&self) -> GifAnimationView {
        GifAnimationView {
            width: self.width,
            height: self.height,
            frames: frames_view(self.frames@),
        }
    }
}

/// The message for an animation without frames.
pub open spec fn no_frames_message() -> Seq<char> {
    "Got a gif with no frames"@
}

/// `frames` in front of what `rest` holds; an error stays an error.
pub open spec fn prepend(frames: Seq<GifFrameView>, rest: Result<Seq<GifFrameView>, ImageError>) -> Result<
    Seq<GifFrameView>,
    ImageError,
> {
    match rest {
        Ok(more) => Ok(frames + more),
        Err(e) => Err(e),
    }
}

/// The frames of the animation that the rendered frames `ordered` become,
/// in this order, after a frame at `last`: each is timed against the one
/// before it. The first frame with a side that does not fit gives the
/// error.
pub open spec fn gif_frames(ordered: Seq<RgbaFrame>, last: u64) -> Result<
    Seq<GifFrameView>,
    ImageError,
>
    decreases ordered.len(),
{
    if ordered.len() == 0 {
        Ok(Seq::empty())
    } else {
        match gif_frame(ordered[0].image@, ordered[0].time, last) {
            Err(e) => Err(e),
            Ok(frame) => prepend(seq![frame], gif_frames(ordered.drop_first(), ordered[0].time)),
        }
    }
}

/// How many of the rendered frames `ordered` are taken up before the
/// sequencing ends: all of them, or those up to and with the first one
/// with a side that does not fit.
pub open spec fn frames_taken(ordered: Seq<RgbaFrame>, last: u64) -> nat
    decreases ordered.len(),
{
    if ordered.len() == 0 {
        0
    } else if gif_frame(ordered[0].image@, ordered[0].time, last) is Err {
        1
    } else {
        1 + frames_taken(ordered.drop_first(), ordered[0].time)
    }
}

/// The size of the canvas: the size of the frame that arrived first, or the
/// error for its side that does not fit.
pub open spec fn canvas(arrivals: Seq<RgbaFrame>) -> Result<(u16, u16), ImageError>
    recommends
        arrivals.len() > 0,
{
    match dimension(arrivals[0].image@.width as usize, ImageDimension::Width) {
        Err(e) => Err(e),
        Ok(width) => match dimension(arrivals[0].image@.height as usize, ImageDimension::Height) {
            Err(e) => Err(e),
            Ok(height) => Ok((width, height)),
        },
    }
}

/// The animation that the rendered frames `arrivals`, in the order of their
/// arrival, become: the canvas has the size of the frame that arrived
/// first, and the frames are shown by ascending index, each timed against
/// the one before it and the first against time zero. Frames that cannot be
/// put in order, because an index is missing or occurs twice, are an error
/// once all others have been taken up.
pub open spec fn sequenced(arrivals: Seq<RgbaFrame>) -> Result<GifAnimationView, ErrorView> {
    if arrivals.len() == 0 {
        Err(ErrorView::Generic(no_frames_message()))
    } else {
        match canvas(arrivals) {
            Err(e) => Err(ErrorView::ImageError(e)),
            Ok((width, height)) => match gif_frames(reassembled(arrivals), 0) {
                Err(e) => Err(ErrorView::ImageError(e)),
                Ok(frames) => if unsequenced(arrivals) > 0 {
                    Err(ErrorView::FramesOutOfSequence(unsequenced(arrivals)))
                } else {
                    Ok(GifAnimationView { width, height, frames })
                },
            },
        }
    }
}

/// How many steps of progress the sequencing of `arrivals` reports: one for
/// every frame that it takes up.
pub open spec fn sequenced_steps(arrivals: Seq<RgbaFrame>) -> nat {
    if arrivals.len() == 0 || canvas(arrivals) is Err {
        0
    } else {
        frames_taken(reassembled(arrivals), 0)
    }
}

/// Puts rendered frames in sequence: see [`sequenced`]. `frames` holds the
/// rendered frames in the order of their arrival. For every frame taken up,
/// `progress` counts one more frame in sequence and `handler` is shown the
/// counters.
pub fn sequence_gif<C: CastProgressHandler>(
    frames: Vec<RgbaFrame>,
    progress: &mut CastRenderProgress,
    handler: &mut C,
) -> (r: Result<GifAnimation, Error>)
    requires
        old(progress).sequence_progress + frames@.len() <= u64::MAX,
    ensures
        match r {
            Ok(animation) => sequenced(frames@) == Ok::<GifAnimationView, ErrorView>(animation@),
            Err(e) => sequenced(frames@) == Err::<GifAnimationView, ErrorView>(e@),
        },
        *final(progress) == (CastRenderProgress {
            sequence_progress: (old(progress).sequence_progress + sequenced_steps(
                frames@,
            )) as u64,
            ..*old(progress)
        }),
{
    if frames.len() == 0 {
        return Err(Error::Generic(String::from_str("Got a gif with no frames")));
    }
    let width = match try_to_u16(frames[0].image.width(), ImageDimension::Width) {
        Ok(width) => width,
        Err(e) => {
            return Err(Error::ImageError(e));
        },
    };
    let height = match try_to_u16(frames[0].image.height(), ImageDimension::Height) {
        Ok(height) => height,
        Err(e) => {
            return Err(Error::ImageError(e));
        },
    };
    let ghost arrivals = frames@;
    let mut ordered = OrderedFrameIter::new(frames);
    let mut out: Vec<GifFrame> = Vec::new();
    let mut last_frame_time: u64 = 0;
    let ghost mut taken: nat = 0;
    loop
        invariant
            arrivals == frames@,
            arrivals.len() > 0,
            canvas(arrivals) == Ok::<(u16, u16), ImageError>((width, height)),
            prepend(frames_view(out@), gif_frames(drained(ordered.state()), last_frame_time))
                == gif_frames(reassembled(arrivals), 0),
            taken + frames_taken(drained(ordered.state()), last_frame_time) == frames_taken(
                reassembled(arrivals),
                0,
            ),
            *progress == (CastRenderProgress {
                sequence_progress: (old(progress).sequence_progress + taken) as u64,
                ..*old(progress)
            }),
            old(progress).sequence_progress + taken + ordered.state().buffer.len()
                + ordered.state().incoming.len() <= u64::MAX,
            after_drain(ordered.state()) == after_drain(initial_state(arrivals)),
        decreases ordered.state().buffer.len() + ordered.state().incoming.len(),
    {
        let ghost before = ordered.state();
        let ghost done = frames_view(out@);
        proof {
            lemma_position_of(before.buffer, before.wanted);
            lemma_position_of(before.incoming, before.wanted);
        }
        match ordered.next() {
            None => {
                proof {
                    assert(drained(before) =~= Seq::<RgbaFrame>::empty());
                    assert(done + Seq::<GifFrameView>::empty() =~= done);
                    lemma_drain_conserves(before);
                }
                return match ordered.finish() {
                    Ok(_) => Ok(GifAnimation { width, height, frames: out }),
                    Err(e) => Err(e),
                };
            },
            Some(frame) => {
                proof {
                    assert(drained(before) == seq![frame] + drained(ordered.state()));
                    assert(drained(before)[0] == frame);
                    assert(drained(before).drop_first() =~= drained(ordered.state()));
                    taken = taken + 1;
                }
                progress.apply(ProgressCmd::IncrementSequenceProgress);
                handler.update_progress(progress);
                let time = frame.time;
                match encode_frame(frame, last_frame_time) {
                    Err(e) => {
                        return Err(Error::ImageError(e));
                    },
                    Ok(gif_frame) => {
                        out.push(gif_frame);
                        proof {
                            let rest = gif_frames(drained(ordered.state()), time);
                            assert(frames_view(out@) =~= done + seq![gif_frame@]);
                            match rest {
                                Ok(more) => {
                                    assert(done + (seq![gif_frame@] + more) =~= frames_view(out@)
                                        + more);
                                },
                                Err(_) => {},
                            }
                        }
                        last_frame_time = time;
                    },
                }
            },
        }
    }
}

/// The time against which frame `i` of `ordered` is timed when the first
/// one follows a frame at `last`.
pub open spec fn time_before(ordered: Seq<RgbaFrame>, last: u64, i: int) -> u64 {
    if i <= 0 {
        last
    } else {
        ordered[i - 1].time
    }
}

/// Where all frames fit, each rendered frame becomes one frame of the
/// animation, timed against the frame before it.
pub proof fn lemma_gif_frames_each(ordered: Seq<RgbaFrame>, last: u64)
    requires
        gif_frames(ordered, last) is Ok,
    ensures
        gif_frames(ordered, last)->Ok_0.len() == ordered.len(),
        frames_taken(ordered, last) == ordered.len(),
        forall|i: int|
            0 <= i < ordered.len() ==> gif_frame(
                ordered[i].image@,
                ordered[i].time,
                time_before(ordered, last, i),
            ) == Ok::<GifFrameView, ImageError>(#[trigger] gif_frames(ordered, last)->Ok_0[i]),
    decreases ordered.len(),
{
    if ordered.len() > 0 {
        let rest = ordered.drop_first();
        lemma_gif_frames_each(rest, ordered[0].time);
        let all = gif_frames(ordered, last)->Ok_0;
        let more = gif_frames(rest, ordered[0].time)->Ok_0;
        assert forall|i: int| 0 <= i < ordered.len() implies gif_frame(
            ordered[i].image@,
            ordered[i].time,
            time_before(ordered, last, i),
        ) == Ok::<GifFrameView, ImageError>(#[trigger] all[i]) by {
            if i > 0 {
                assert(all[i] == more[i - 1]);
                assert(rest[i - 1] == ordered[i]);
                if i > 1 {
                    assert(rest[i - 2] == ordered[i - 1]);
                }
                assert(time_before(rest, ordered[0].time, i - 1) == time_before(ordered, last, i));
            }
        }
    }
}

} // verus!
