//! The values that travel through the pipeline.

use vstd::prelude::*;
use crate::terminal::{Screen, ScreenView};

verus! {

/// A terminal snapshot: the screen as it stood at one sampling instant.
#[derive(Debug)]
pub struct TerminalFrame {
    /// The position of the frame in the animation, counted from zero.
    pub index: u64,
    /// The time of the frame on the animation's timeline, in microseconds.
    pub time: u64,
    /// The state of the terminal screen at this frame.
    pub screen: Screen,
}

/// Mathematical model of a [`TerminalFrame`].
pub struct TerminalFrameView {
    pub index: nat,
    pub time: nat,
    pub screen: ScreenView,
}

impl View for TerminalFrame {
    type V = TerminalFrameView;

    open spec fn view(&self) -> TerminalFrameView {
        TerminalFrameView {
            index: self.index as nat,
            time: self.time as nat,
            screen: self.screen@,
        }
    }
}

/// A raster image of four bytes (red, green, blue, alpha) per pixel, row by
/// row without padding.
///
/// The buffer holds exactly `width * height * 4` bytes; this is the type's
/// invariant, established by every constructor.
#[derive(Debug)]
pub struct RgbaImage {
    width: usize,
    height: usize,
    pixels: Vec<u8>,
}

/// Mathematical model of an [`RgbaImage`].
pub struct RgbaImageView {
    pub width: nat,
    pub height: nat,
    pub pixels: Seq<u8>,
}

impl RgbaImageView {
    /// The buffer is as long as the size says.
    pub open spec fn wf(self) -> bool {
        self.pixels.len() == self.width * self.height * 4
    }
}

impl View for RgbaImage {
    type V = RgbaImageView;

    closed spec fn view(&self) -> RgbaImageView {
        RgbaImageView {
            width: self.width as nat,
            height: self.height as nat,
            pixels: self.pixels@,
        }
    }
}

impl RgbaImage {
    #[verifier::type_invariant]
    spec fn inv(self) -> bool {
        self.pixels@.len() == self.width * self.height * 4
    }

    /// Builds an image from its bytes. Returns `None` unless `pixels` holds
    /// exactly `width * height * 4` bytes.
    pub fn new(pixels: Vec<u8>, width: usize, height: usize) -> (image: Option<RgbaImage>)
        ensures
            image is Some <==> pixels@.len() == width * height * 4,
            image is Some ==> image.unwrap()@ == (RgbaImageView {
                width: width as nat,
                height: height as nat,
                pixels: pixels@,
            }),
    {
        let len = pixels.len();
        let area = match width.checked_mul(height) {
            Some(area) => area,
            None => {
                proof {
                    lemma_area_bound(len as int, width as int, height as int);
                }
                return None;
            },
        };
        let size = match area.checked_mul(4) {
            Some(size) => size,
            None => {
                return None;
            },
        };
        if len != size {
            return None;
        }
        Some(RgbaImage { width, height, pixels })
    }

    /// The width in pixels.
    pub fn width(&self) -> (w: usize)
        ensures
            w == self@.width,
            self@.wf(),
    {
        proof {
            use_type_invariant(self);
        }
        self.width
    }

    /// The height in pixels.
    pub fn height(&self) -> (h: usize)
        ensures
            h == self@.height,
            self@.wf(),
    {
        proof {
            use_type_invariant(self);
        }
        self.height
    }

    /// The bytes of the image.
    pub fn pixels(&self) -> (p: &Vec<u8>)
        ensures
            p@ == self@.pixels,
            self@.wf(),
    {
        proof {
            use_type_invariant(self);
        }
        &self.pixels
    }

    /// Takes the image apart into its bytes, its width and its height.
    pub fn into_contiguous_buf(self) -> (parts: (Vec<u8>, usize, usize))
        ensures
            parts.0@ == self@.pixels,
            parts.1 == self@.width,
            parts.2 == self@.height,
            self@.wf(),
    {
        proof {
            use_type_invariant(&self);
        }
        (self.pixels, self.width, self.height)
    }
}

/// A buffer of `len` bytes holds fewer than `width * height * 4` bytes
/// where `width * height` exceeds the largest length.
proof fn lemma_area_bound(len: int, width: int, height: int)
    requires
        0 <= len <= usize::MAX,
        width * height > usize::MAX,
    ensures
        len != width * height * 4,
{
}

/// A rendered frame: the image of one terminal snapshot.
#[derive(Debug)]
pub struct RgbaFrame {
    /// The position of the frame in the animation, counted from zero.
    pub index: u64,
    /// The time of the frame on the animation's timeline, in microseconds.
    pub time: u64,
    /// The image of the frame.
    pub image: RgbaImage,
}

/// The progress of one conversion: how many frames there are, and how many
/// of them have been rendered and put in sequence so far.
#[derive(Debug, Clone, Copy, PartialEq, Eq, Structural)]
pub struct CastRenderProgress {
    /// The number of frames found so far.
    pub count: u64,
    /// The number of frames rendered.
    pub raster_progress: u64,
    /// The number of frames put in sequence.
    pub sequence_progress: u64,
}

/// One step of progress, as reported by a stage of the pipeline.
#[derive(Debug, Clone, Copy, PartialEq, Eq, Structural)]
pub enum ProgressCmd {
    /// One more frame was found.
    IncrementCount,
    /// One more frame was rendered.
    IncrementRasterProgress,
    /// One more frame was put in sequence.
    IncrementSequenceProgress,
}

impl Default for CastRenderProgress {
    fn default() -> (progress: CastRenderProgress)
        ensures
            progress == CastRenderProgress::zero(),
    {
        CastRenderProgress { count: 0, raster_progress: 0, sequence_progress: 0 }
    }
}

impl CastRenderProgress {
    /// The progress of a conversion that has not begun.
    pub open spec fn zero() -> CastRenderProgress {
        CastRenderProgress { count: 0, raster_progress: 0, sequence_progress: 0 }
    }

    /// Whether the counter that `cmd` advances can still be advanced.
    pub open spec fn can_apply(self, cmd: ProgressCmd) -> bool {
        match cmd {
            ProgressCmd::IncrementCount => self.count < u64::MAX,
            ProgressCmd::IncrementRasterProgress => self.raster_progress < u64::MAX,
            ProgressCmd::IncrementSequenceProgress => self.sequence_progress < u64::MAX,
        }
    }

    /// The progress after `cmd`: the counter that `cmd` names is one
    /// higher, the others are unchanged.
    pub open spec fn after(self, cmd: ProgressCmd) -> CastRenderProgress {
        match cmd {
            ProgressCmd::IncrementCount => CastRenderProgress {
                count: (self.count + 1) as u64,
                ..self
            },
            ProgressCmd::IncrementRasterProgress => CastRenderProgress {
                raster_progress: (self.raster_progress + 1) as u64,
                ..self
            },
            ProgressCmd::IncrementSequenceProgress => CastRenderProgress {
                sequence_progress: (self.sequence_progress + 1) as u64,
                ..self
            },
        }
    }

    /// Whether no counter of `self` is above the same counter of `later`.
    pub open spec fn no_later_than(self, later: CastRenderProgress) -> bool {
        &&& self.count <= later.count
        &&& self.raster_progress <= later.raster_progress
        &&& self.sequence_progress <= later.sequence_progress
    }

    /// The progress after all of `cmds`, applied in order to `self`.
    pub open spec fn after_all(self, cmds: Seq<ProgressCmd>) -> CastRenderProgress
        decreases cmds.len(),
    {
        if cmds.len() == 0 {
            self
        } else {
            self.after_all(cmds.drop_last()).after(cmds.last())
        }
    }

    /// Records one step of progress. No counter ever goes down.
    pub fn apply(&mut self, cmd: ProgressCmd)
        requires
            old(self).can_apply(cmd),
        ensures
            *final(self) == old(self).after(cmd),
            old(self).no_later_than(*final(self)),
    {
        match cmd {
            ProgressCmd::IncrementCount => {
                self.count = self.count + 1;
            },
            ProgressCmd::IncrementRasterProgress => {
                self.raster_progress = self.raster_progress + 1;
            },
            ProgressCmd::IncrementSequenceProgress => {
                self.sequence_progress = self.sequence_progress + 1;
            },
        }
    }
}

/// An observer of a conversion's progress. It is shown the counters after
/// every step.
pub trait CastProgressHandler {
    fn update_progress(&mut self, progress: &CastRenderProgress);
}

/// An observer that ignores what it is shown.
pub struct NullProgressHandler;

impl CastProgressHandler for NullProgressHandler {
    fn update_progress(&mut self, _progress: &CastRenderProgress) {
    }
}

} // verus!
