//! Pipeline that turns a recorded terminal session into the frames of an
//! animation: sampling of the recording into snapshots, rendering of the
//! snapshots, reordering of the rendered frames, progress accounting and
//! frame timing.

use vstd::prelude::*;
use crate::cast_parser::{
    header_verdict,
    sampled,
    AsciinemaErrorView,
    FrameLine,
    HeaderLine,
    SampleItem,
    TerminalFrameIter,
    MAX_FRAME_TIME,
};
use crate::frame_renderer::svg::{
    drawable,
    raster_failure_message,
    render_frame_to_png,
    too_large_message,
    CELL_HEIGHT,
    CELL_WIDTH,
};
use crate::cast_parser::{
    initial_state,
    lemma_indices_dense,
    lemma_sample_from_sized,
    SamplerConfig,
};
use crate::ordering::lemma_reassembly_keeps_sorted;
use crate::sequencer::{
    delay_of,
    lemma_gif_frames_each,
    no_frames_message,
    sequence_gif,
    GifAnimation,
    GifAnimationView,
};
use crate::types::{ProgressCmd, RgbaFrame};

pub mod cast_parser;
pub mod cli;
pub mod frame_renderer;
pub mod ordering;
pub mod sequencer;
pub mod terminal;
pub mod types;

pub use crate::cast_parser::AsciinemaError;
pub use crate::cli::CropSettings;
pub use crate::types::{CastProgressHandler, CastRenderProgress, NullProgressHandler};

verus! {

/// A side of an image.
#[derive(Debug, Clone, Copy, PartialEq, Eq, Structural)]
pub enum ImageDimension {
    Width,
    Height,
}

impl ImageDimension {
    /// The name of the side, in lower case.
    pub fn name(&self) -> (name: &'static str)
        ensures
            name@ == (match self {
                ImageDimension::Width => "width"@,
                ImageDimension::Height => "height"@,
            }),
    {
        match self {
            ImageDimension::Width => "width",
            ImageDimension::Height => "height",
        }
    }
}

/// Why an image cannot become a frame of the animation.
#[derive(Debug, Clone, Copy, PartialEq, Eq, Structural)]
pub enum ImageError {
    /// The named side, of the given length in pixels, does not fit 16 bits.
    InvalidDimension(ImageDimension, usize),
}

/// Why a conversion failed.
#[derive(Debug)]
pub enum Error {
    /// A failure described in words.
    Generic(String),
    /// The recording could not be sampled.
    AsciinemaError(AsciinemaError),
    /// Reading or writing failed; holds the message.
    IoError(String),
    /// A rendered image cannot become a frame of the animation.
    ImageError(ImageError),
    /// Rendered frames were left that could not be put in sequence, because
    /// an index never arrived or arrived twice; holds their number.
    FramesOutOfSequence(usize),
}

/// Mathematical model of an [`Error`].
pub enum ErrorView {
    Generic(Seq<char>),
    AsciinemaError(crate::cast_parser::AsciinemaErrorView),
    IoError(Seq<char>),
    ImageError(ImageError),
    FramesOutOfSequence(usize),
}

impl View for Error {
    type V = ErrorView;

    open spec fn view(&self) -> ErrorView {
        match self {
            Error::Generic(m) => ErrorView::Generic(m@),
            Error::AsciinemaError(e) => ErrorView::AsciinemaError(e@),
            Error::IoError(m) => ErrorView::IoError(m@),
            Error::ImageError(e) => ErrorView::ImageError(*e),
            Error::FramesOutOfSequence(n) => ErrorView::FramesOutOfSequence(*n),
        }
    }
}

/// Tallies the steps of progress that were reported, in order, and shows
/// the handler the counters after every step, once per step. Returns what
/// the handler was shown: the counters after the first step, after the
/// first two, and so on.
pub fn progress_thread<C: CastProgressHandler>(
    progress_receiver: &Vec<ProgressCmd>,
    progress_handler: &mut C,
) -> (shown: Vec<CastRenderProgress>)
    ensures
        shown@.len() == progress_receiver@.len(),
        forall|j: int|
            0 <= j < shown@.len() ==> #[trigger] shown@[j] == CastRenderProgress::zero().after_all(
                progress_receiver@.take(j + 1),
            ),
{
    let mut progress = CastRenderProgress::default();
    let mut shown: Vec<CastRenderProgress> = Vec::new();
    let mut i: usize = 0;
    while i < progress_receiver.len()
        invariant
            i <= progress_receiver@.len(),
            shown@.len() == i,
            forall|j: int|
                0 <= j < i ==> #[trigger] shown@[j] == CastRenderProgress::zero().after_all(
                    progress_receiver@.take(j + 1),
                ),
            progress == CastRenderProgress::zero().after_all(progress_receiver@.take(i as int)),
            progress.count <= i,
            progress.raster_progress <= i,
            progress.sequence_progress <= i,
        decreases progress_receiver@.len() - i,
    {
        proof {
            let upto = progress_receiver@.take(i + 1);
            assert(upto.drop_last() =~= progress_receiver@.take(i as int));
            assert(upto.last() == progress_receiver@[i as int]);
        }
        progress.apply(progress_receiver[i]);
        progress_handler.update_progress(&progress);
        shown.push(progress);
        i += 1;
    }
    shown
}

/// Whether the image `image` is a rendering of the snapshot that `item`
/// holds: it has the snapshot's index and time and the size of the
/// snapshot's drawing.
pub open spec fn renders(image: RgbaFrame, item: SampleItem) -> bool {
    match item {
        Ok(snapshot) => {
            &&& drawable(snapshot.screen.rows, snapshot.screen.cols)
            &&& image.index == snapshot.index
            &&& image.time == snapshot.time
            &&& image.image@.width == snapshot.screen.cols * CELL_WIDTH
            &&& image.image@.height == snapshot.screen.rows * CELL_HEIGHT
            &&& image.image@.wf()
        },
        Err(_) => false,
    }
}

/// Whether `e` is the error that the item `item` holds.
pub open spec fn is_sampling_error(e: ErrorView, item: SampleItem) -> bool {
    match item {
        Ok(_) => false,
        Err(cause) => e == ErrorView::AsciinemaError(cause),
    }
}

/// Whether rendering the items in order ends at item `k` with the error
/// `e` and takes the counters from `before` to `after`.
///
/// The `k` items before it are snapshots that were rendered: each counted
/// as found and as rendered. Item `k` is either the sampler's error, which
/// is then the error, or a snapshot that counted as found and could not be
/// rendered: because its screen is too large to be drawn, or else because
/// the rasterizer gave no image of it.
pub open spec fn stops_at(
    items: Seq<SampleItem>,
    k: int,
    e: ErrorView,
    before: CastRenderProgress,
    after: CastRenderProgress,
) -> bool {
    &&& 0 <= k < items.len()
    &&& forall|i: int| 0 <= i < k ==> (#[trigger] items[i]) is Ok
    &&& after.raster_progress == before.raster_progress + k
    &&& after.sequence_progress == before.sequence_progress
    &&& match items[k] {
        Err(cause) => e == ErrorView::AsciinemaError(cause) && after.count == before.count + k,
        Ok(snapshot) => {
            &&& after.count == before.count + k + 1
            &&& e == ErrorView::Generic(
                if drawable(snapshot.screen.rows, snapshot.screen.cols) {
                    raster_failure_message()
                } else {
                    too_large_message()
                },
            )
        },
    }
}

/// Renders the snapshots that the sampler still has, one after the other.
/// For every snapshot `progress` counts one more frame found, and one more
/// frame rendered once its image is there; `handler` is shown the counters
/// after each step.
///
/// Returns the images in the order of the snapshots, each with its
/// snapshot's index and time. The first error of the sampler or of the
/// rendering ends the work and is returned: see [`stops_at`]. Where the
/// sampler has nothing left, the result is no images and no error.
pub fn png_raster_thread<C: CastProgressHandler>(
    frames: &mut TerminalFrameIter,
    options: &usvg::Options<'_>,
    progress: &mut CastRenderProgress,
    handler: &mut C,
) -> (r: Result<Vec<RgbaFrame>, Error>)
    requires
        old(frames).wf(),
        old(progress).count + MAX_FRAME_TIME + 1 <= u64::MAX,
        old(progress).raster_progress + MAX_FRAME_TIME + 1 <= u64::MAX,
    ensures
        final(frames).wf(),
        old(frames).remaining().len() == 0 ==> r is Ok,
        match r {
            Ok(images) => {
                &&& images@.len() == old(frames).remaining().len()
                &&& forall|i: int|
                    0 <= i < images@.len() ==> renders(
                        #[trigger] images@[i],
                        old(frames).remaining()[i],
                    )
                &&& final(frames).remaining().len() == 0
                &&& final(progress).count == old(progress).count + images@.len()
                &&& final(progress).raster_progress == old(progress).raster_progress
                    + images@.len()
                &&& final(progress).sequence_progress == old(progress).sequence_progress
            },
            Err(e) => exists|k: int| #[trigger]
                stops_at(old(frames).remaining(), k, e@, *old(progress), *final(progress)),
        },
{
    let ghost items = frames.remaining();
    let ghost first = frames.index_of_next();
    let mut images: Vec<RgbaFrame> = Vec::new();
    proof {
        frames.lemma_index_in_range();
        assert(items.skip(0) =~= items);
    }
    loop
        invariant
            frames.wf(),
            items == old(frames).remaining(),
            images@.len() <= items.len(),
            frames.remaining() == items.skip(images@.len() as int),
            forall|i: int| 0 <= i < images@.len() ==> renders(#[trigger] images@[i], items[i]),
            frames.index_of_next() == first + images@.len(),
            first + images@.len() <= MAX_FRAME_TIME + 1,
            old(progress).count + MAX_FRAME_TIME + 1 <= u64::MAX,
            old(progress).raster_progress + MAX_FRAME_TIME + 1 <= u64::MAX,
            progress.count == old(progress).count + images@.len(),
            progress.raster_progress == old(progress).raster_progress + images@.len(),
            progress.sequence_progress == old(progress).sequence_progress,
        decreases frames.remaining().len(),
    {
        let ghost at = images@.len() as int;
        proof {
            assert forall|i: int| 0 <= i < at implies (#[trigger] items[i]) is Ok by {
                assert(renders(images@[i], items[i]));
            }
        }
        match frames.next() {
            None => {
                return Ok(images);
            },
            Some(Err(e)) => {
                proof {
                    assert(items.skip(at)[0] == items[at]);
                    assert(stops_at(
                        items,
                        at,
                        ErrorView::AsciinemaError(e@),
                        *old(progress),
                        *progress,
                    ));
                }
                let failure = Error::AsciinemaError(e);
                proof {
                    assert(failure@ == ErrorView::AsciinemaError(e@));
                    assert(stops_at(items, at, failure@, *old(progress), *progress));
                }
                return Err(failure);
            },
            Some(Ok(frame)) => {
                proof {
                    assert(items.skip(at)[0] == items[at]);
                    assert(items.skip(at).drop_first() =~= items.skip(at + 1));
                }
                progress.apply(ProgressCmd::IncrementCount);
                handler.update_progress(progress);
                match render_frame_to_png(frame, options) {
                    Err(e) => {
                        proof {
                            assert(stops_at(items, at, e@, *old(progress), *progress));
                        }
                        return Err(e);
                    },
                    Ok(image) => {
                        images.push(image);
                        progress.apply(ProgressCmd::IncrementRasterProgress);
                        handler.update_progress(progress);
                    },
                }
            },
        }
    }
}

/// The time against which snapshot `i` of `items` is timed: zero for the
/// first, else the time of the snapshot before it.
pub open spec fn time_before_item(items: Seq<SampleItem>, i: int) -> u64 {
    if i <= 0 {
        0
    } else {
        match items[i - 1] {
            Ok(snapshot) => snapshot.time as u64,
            Err(_) => 0,
        }
    }
}

/// Whether `animation` is the animation of the snapshots `items` of a
/// screen of `rows` by `cols` cells: one frame for every snapshot, in the
/// order of the snapshots, each of the size of the screen's drawing and
/// timed against the snapshot before it.
pub open spec fn animates(
    animation: GifAnimationView,
    items: Seq<SampleItem>,
    rows: u16,
    cols: u16,
) -> bool {
    &&& items.len() > 0
    &&& animation.frames.len() == items.len()
    &&& animation.width == cols * CELL_WIDTH
    &&& animation.height == rows * CELL_HEIGHT
    &&& forall|i: int|
        0 <= i < items.len() ==> match #[trigger] items[i] {
            Ok(snapshot) => {
                &&& animation.frames[i].width == cols * CELL_WIDTH
                &&& animation.frames[i].height == rows * CELL_HEIGHT
                &&& animation.frames[i].delay == delay_of(
                    snapshot.time as u64,
                    time_before_item(items, i),
                )
            },
            Err(_) => false,
        }
}

/// Whether `r`, with the counters `progress`, is an outcome of converting
/// the recording with the given header and lines.
///
/// A header that is refused fails the conversion with its error, and no
/// step of progress is counted. So does a recording without snapshots,
/// with the error that there are no frames. Otherwise the snapshots are
/// rendered in order. Where the sampling or the rendering ends with an
/// error, that error is the outcome and the counters tell how far the work
/// came: see [`stops_at`]. Where it does not, the outcome is the animation
/// of all snapshots, and all three counters stand at their number.
pub open spec fn converts(
    header: HeaderLine,
    lines: Seq<FrameLine>,
    interval: u64,
    r: Result<GifAnimation, Error>,
    progress: CastRenderProgress,
) -> bool {
    match header_verdict(header) {
        Some(cause) => {
            &&& r is Err
            &&& r->Err_0@ == ErrorView::AsciinemaError(cause)
            &&& progress == CastRenderProgress::zero()
        },
        None => {
            &&& header matches HeaderLine::Decoded(meta)
            &&& {
                let items = sampled(meta.height, meta.width, interval, lines);
                match r {
                    Ok(animation) => {
                        &&& animates(animation@, items, meta.height, meta.width)
                        &&& progress.count == items.len()
                        &&& progress.raster_progress == items.len()
                        &&& progress.sequence_progress == items.len()
                    },
                    Err(e) => if items.len() == 0 {
                        &&& e@ == ErrorView::Generic(no_frames_message())
                        &&& progress == CastRenderProgress::zero()
                    } else {
                        exists|k: int| #[trigger]
                            stops_at(items, k, e@, CastRenderProgress::zero(), progress)
                    },
                }
            }
        },
    }
}

/// Converts a recording to the frames of an animation, and shows
/// `update_progress` the counters after every step. Returns the outcome
/// and the counters as they stand at the end: see [`converts`].
///
/// `header` is what the first line of the recording gave, `lines` what the
/// lines after it gave, `interval` the time between two snapshots in
/// microseconds, and `options` holds the fonts to draw with.
pub fn convert_to_gif_with_progress<C: CastProgressHandler>(
    header: HeaderLine,
    lines: Vec<FrameLine>,
    interval: u64,
    options: &usvg::Options<'_>,
    update_progress: &mut C,
) -> (r: (Result<GifAnimation, Error>, CastRenderProgress))
    requires
        interval > 0,
    ensures
        converts(header, lines@, interval, r.0, r.1),
{
    let ghost source = lines@;
    let mut progress = CastRenderProgress::default();
    let mut frames = match TerminalFrameIter::new(header, lines, interval) {
        Ok(frames) => frames,
        Err(e) => {
            return (Err(Error::AsciinemaError(e)), progress);
        },
    };
    let ghost meta = header->Decoded_0;
    let ghost items = sampled(meta.height, meta.width, interval, source);
    let images = match png_raster_thread(&mut frames, options, &mut progress, update_progress) {
        Ok(images) => images,
        Err(e) => {
            return (Err(e), progress);
        },
    };
    let ghost rendered = images@;
    proof {
        lemma_indices_dense(meta.height, meta.width, interval, source);
        lemma_sample_from_sized(
            SamplerConfig { rows: meta.height, cols: meta.width, interval },
            initial_state(),
            source,
        );
        assert forall|i: int| 0 <= i < rendered.len() implies (#[trigger] rendered[i]).index
            == i by {
            assert(renders(rendered[i], items[i]));
        }
        lemma_reassembly_keeps_sorted(rendered);
        if rendered.len() > 0 {
            assert(renders(rendered[0], items[0]));
            assert forall|i: int| 0 <= i < rendered.len() implies crate::sequencer::gif_frame(
                rendered[i].image@,
                rendered[i].time,
                crate::sequencer::time_before(rendered, 0, i),
            ) is Ok by {
                assert(renders(rendered[i], items[i]));
            }
            lemma_gif_frames_total(rendered, 0);
            lemma_gif_frames_each(rendered, 0);
        }
    }
    match sequence_gif(images, &mut progress, update_progress) {
        Err(e) => (Err(e), progress),
        Ok(animation) => {
            proof {
                assert forall|i: int| 0 <= i < items.len() implies match #[trigger] items[i] {
                    Ok(snapshot) => {
                        &&& animation@.frames[i].width == meta.width * CELL_WIDTH
                        &&& animation@.frames[i].height == meta.height * CELL_HEIGHT
                        &&& animation@.frames[i].delay == delay_of(
                            snapshot.time as u64,
                            time_before_item(items, i),
                        )
                    },
                    Err(_) => false,
                } by {
                    assert(renders(rendered[i], items[i]));
                    if i > 0 {
                        assert(renders(rendered[i - 1], items[i - 1]));
                    }
                    assert(crate::sequencer::gif_frame(
                        rendered[i].image@,
                        rendered[i].time,
                        crate::sequencer::time_before(rendered, 0, i),
                    ) == Ok::<crate::sequencer::GifFrameView, ImageError>(animation@.frames[i]));
                }
            }
            (Ok(animation), progress)
        },
    }
}

/// Where every frame fits, the frames can be put in sequence.
proof fn lemma_gif_frames_total(ordered: Seq<RgbaFrame>, last: u64)
    requires
        forall|i: int|
            0 <= i < ordered.len() ==> (#[trigger] crate::sequencer::gif_frame(
                ordered[i].image@,
                ordered[i].time,
                crate::sequencer::time_before(ordered, last, i),
            )) is Ok,
    ensures
        crate::sequencer::gif_frames(ordered, last) is Ok,
    decreases ordered.len(),
{
    if ordered.len() > 0 {
        let rest = ordered.drop_first();
        assert(crate::sequencer::gif_frame(
            ordered[0].image@,
            ordered[0].time,
            crate::sequencer::time_before(ordered, last, 0),
        ) is Ok);
        assert forall|i: int| 0 <= i < rest.len() implies (#[trigger] crate::sequencer::gif_frame(
            rest[i].image@,
            rest[i].time,
            crate::sequencer::time_before(rest, ordered[0].time, i),
        )) is Ok by {
            assert(rest[i] == ordered[i + 1]);
            if i > 0 {
                assert(rest[i - 1] == ordered[i]);
            }
            assert(crate::sequencer::gif_frame(
                ordered[i + 1].image@,
                ordered[i + 1].time,
                crate::sequencer::time_before(ordered, last, i + 1),
            ) is Ok);
        }
        lemma_gif_frames_total(rest, ordered[0].time);
    }
}

/// Converts a recording to the frames of an animation without showing
/// anyone the progress: the outcome is that of
/// [`convert_to_gif_with_progress`].
pub fn convert_to_gif(
    header: HeaderLine,
    lines: Vec<FrameLine>,
    interval: u64,
    options: &usvg::Options<'_>,
) -> (r: Result<GifAnimation, Error>)
    requires
        interval > 0,
    ensures
        exists|progress: CastRenderProgress| converts(header, lines@, interval, r, progress),
{
    let mut handler = NullProgressHandler;
    let (r, progress) = convert_to_gif_with_progress(header, lines, interval, options, &mut handler);
    proof {
        assert(converts(header, lines@, interval, r, progress));
    }
    r
}

} // verus!
