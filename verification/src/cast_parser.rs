//! The snapshot sampler.
//!
//! A recording is a header followed by timestamped chunks of terminal
//! output. The sampler feeds the chunks to the terminal emulator and emits
//! snapshots of the screen at a fixed interval: an event that comes less
//! than one interval after the last emitted snapshot only updates the
//! screen, and an event that comes later is emitted once for every whole
//! interval that has passed. What is still unseen when the recording ends is
//! flushed as one last snapshot.

use vstd::prelude::*;
use vstd::string::*;
use vstd::utf8::encode_utf8;
use crate::terminal::{
    emulated_screen,
    holds_screen,
    MAX_SCREEN_COLS,
    MIN_SCREEN_SIDE,
    parser_histories,
    parser_size,
    term_new,
    term_process,
    Screen,
    ScreenView,
};
use crate::types::{TerminalFrame, TerminalFrameView};

verus! {

/// The largest timestamp, in microseconds, that the sampler accepts. Filler
/// snapshots of an event lie less than twice its timestamp into the
/// recording, so their timestamps fit as well.
pub const MAX_FRAME_TIME: u64 = 0x7fff_ffff_ffff_ffff;

/// Why a recording could not be sampled.
#[derive(Debug)]
pub enum AsciinemaError {
    /// The header could not be decoded; holds the decoder's message.
    ParseError(String),
    /// The recording breaks the format; holds a description.
    GenericParserError(String),
    /// The source could not be read; holds the reader's message.
    IoError(String),
    /// The header declares a format version other than 2.
    InvalidVersion(u16),
}

/// Mathematical model of an [`AsciinemaError`].
pub enum AsciinemaErrorView {
    ParseError(Seq<char>),
    GenericParserError(Seq<char>),
    IoError(Seq<char>),
    InvalidVersion(u16),
}

impl View for AsciinemaError {
    type V = AsciinemaErrorView;

    open spec fn view(&self) -> AsciinemaErrorView {
        match self {
            AsciinemaError::ParseError(m) => AsciinemaErrorView::ParseError(m@),
            AsciinemaError::GenericParserError(m) => AsciinemaErrorView::GenericParserError(m@),
            AsciinemaError::IoError(m) => AsciinemaErrorView::IoError(m@),
            AsciinemaError::InvalidVersion(v) => AsciinemaErrorView::InvalidVersion(*v),
        }
    }
}

/// The header of a recording.
#[derive(Debug)]
pub struct AsciinemaCastMeta {
    pub version: u16,
    pub width: u16,
    pub height: u16,
    pub timestamp: i32,
    pub env: Vec<(String, String)>,
}

/// One event of a recording.
#[derive(Debug)]
pub struct AsciinemaFrame {
    /// Time since the start of the recording, in microseconds.
    pub time: u64,
    /// The kind of the event; `o` marks terminal output.
    pub command: String,
    /// The text written to the terminal.
    pub output: String,
}

/// What reading and decoding the first line of a recording gave.
#[derive(Debug)]
pub enum HeaderLine {
    /// The source has no first line.
    Missing,
    /// The line could not be read; holds the reader's message.
    Unreadable(String),
    /// The line is no header; holds the decoder's message.
    Undecodable(String),
    /// The decoded header.
    Decoded(AsciinemaCastMeta),
}

/// What reading and decoding one line after the header gave.
#[derive(Debug)]
pub enum FrameLine {
    /// The line could not be read; holds the reader's message.
    Unreadable(String),
    /// The text of the line and, where it decodes as an event, the event.
    Text { line: String, frame: Option<AsciinemaFrame> },
}

/// What one line after the header means to the sampler.
#[derive(Debug)]
pub enum LineKind<'a> {
    /// The line is empty and is passed over.
    Skip,
    /// The line is an output event at the given time, which sends the given
    /// bytes to the terminal.
    Event { time: u64, output: &'a [u8] },
    /// The line ends the sampling with an error.
    Fail(AsciinemaError),
}

/// Mathematical model of a [`LineKind`].
pub enum LineMeaning {
    Skip,
    Event { time: u64, output: Seq<u8> },
    Fail(AsciinemaErrorView),
}

impl<'a> View for LineKind<'a> {
    type V = LineMeaning;

    open spec fn view(&self) -> LineMeaning {
        match self {
            LineKind::Skip => LineMeaning::Skip,
            LineKind::Event { time, output } => LineMeaning::Event { time: *time, output: output@ },
            LineKind::Fail(e) => LineMeaning::Fail(e@),
        }
    }
}

/// The message for a source without a header line.
pub open spec fn missing_header_message() -> Seq<char> {
    "Missing cast metadata line"@
}

/// The message for a header that declares a screen that the emulator
/// cannot hold.
pub open spec fn empty_screen_message() -> Seq<char> {
    "The cast declares a terminal with fewer than 2 rows or columns or with more than 65527 columns"@
}

/// The message for a line that is no event record.
pub open spec fn malformed_frame_message(line: Seq<char>) -> Seq<char> {
    "Error parsing asciinema frame: "@ + line
}

/// The message for an event of a kind other than terminal output.
pub open spec fn unsupported_event_message(line: Seq<char>) -> Seq<char> {
    "Cast2Gif doesn't yet understand asciinema files with something other than `o` in the second item of the record array. Please open an issue for this: "@
        + line
}

/// The message for an emulator that lacks a cell of its own grid.
pub open spec fn missing_cell_message() -> Seq<char> {
    "The terminal emulator is missing a cell of its screen"@
}

/// The error for an emulator that lacks a cell of its own grid.
pub open spec fn missing_cell_error() -> AsciinemaErrorView {
    AsciinemaErrorView::GenericParserError(missing_cell_message())
}

/// The error that the header gives rise to, if any: a header that is
/// missing, unreadable or undecodable, then a version other than 2, then a
/// screen that the emulator cannot hold.
pub open spec fn header_verdict(header: HeaderLine) -> Option<AsciinemaErrorView> {
    match header {
        HeaderLine::Missing => Some(
            AsciinemaErrorView::GenericParserError(missing_header_message()),
        ),
        HeaderLine::Unreadable(e) => Some(AsciinemaErrorView::IoError(e@)),
        HeaderLine::Undecodable(e) => Some(AsciinemaErrorView::ParseError(e@)),
        HeaderLine::Decoded(meta) => if meta.version != 2 {
            Some(AsciinemaErrorView::InvalidVersion(meta.version))
        } else if !holds_screen(meta.height, meta.width) {
            Some(AsciinemaErrorView::GenericParserError(empty_screen_message()))
        } else {
            None
        },
    }
}

/// What a line after the header means: an unreadable line is an I/O error,
/// an empty line is skipped, a line that is no event record or whose time
/// exceeds [`MAX_FRAME_TIME`] is malformed, an event of a kind other than
/// `o` is unsupported, and anything else is an output event that sends its
/// text, encoded as UTF-8, to the terminal.
pub open spec fn line_meaning(line: FrameLine) -> LineMeaning {
    match line {
        FrameLine::Unreadable(e) => LineMeaning::Fail(AsciinemaErrorView::IoError(e@)),
        FrameLine::Text { line, frame } => if line@.len() == 0 {
            LineMeaning::Skip
        } else {
            match frame {
                None => LineMeaning::Fail(
                    AsciinemaErrorView::GenericParserError(malformed_frame_message(line@)),
                ),
                Some(f) => if f.time > MAX_FRAME_TIME {
                    LineMeaning::Fail(
                        AsciinemaErrorView::GenericParserError(malformed_frame_message(line@)),
                    )
                } else if f.command@ != "o"@ {
                    LineMeaning::Fail(
                        AsciinemaErrorView::GenericParserError(unsupported_event_message(line@)),
                    )
                } else {
                    LineMeaning::Event { time: f.time, output: encode_utf8(f.output@) }
                },
            }
        },
    }
}

/// Decides what a line after the header means to the sampler.
pub fn classify<'a>(line: &'a FrameLine) -> (kind: LineKind<'a>)
    ensures
        kind@ == line_meaning(*line),
{
    match line {
        FrameLine::Unreadable(e) => LineKind::Fail(AsciinemaError::IoError(e.clone())),
        FrameLine::Text { line, frame } => {
            if line.as_str().is_empty() {
                LineKind::Skip
            } else {
                match frame {
                    None => LineKind::Fail(
                        AsciinemaError::GenericParserError(
                            String::from_str("Error parsing asciinema frame: ").concat(
                                line.as_str(),
                            ),
                        ),
                    ),
                    Some(f) => {
                        let output_kind = String::from_str("o");
                        if f.time > MAX_FRAME_TIME {
                            LineKind::Fail(
                                AsciinemaError::GenericParserError(
                                    String::from_str("Error parsing asciinema frame: ").concat(
                                        line.as_str(),
                                    ),
                                ),
                            )
                        } else if f.command != output_kind {
                            LineKind::Fail(
                                AsciinemaError::GenericParserError(
                                    String::from_str(
                                        "Cast2Gif doesn't yet understand asciinema files with something other than `o` in the second item of the record array. Please open an issue for this: ",
                                    ).concat(line.as_str()),
                                ),
                            )
                        } else {
                            LineKind::Event { time: f.time, output: f.output.as_str().as_bytes() }
                        }
                    },
                }
            }
        },
    }
}

/// One item of the sampler's output: a snapshot, or the error that ends it.
pub type SampleItem = Result<TerminalFrameView, AsciinemaErrorView>;

/// What the sampler was set up with.
pub struct SamplerConfig {
    /// Rows of the terminal grid.
    pub rows: u16,
    /// Columns of the terminal grid.
    pub cols: u16,
    /// The sampling interval, in microseconds.
    pub interval: u64,
}

/// The sampler's state between two lines.
pub struct SamplerState {
    /// The time of the event that was emitted last; zero before the first.
    pub last_frame_time: nat,
    /// The index that the next snapshot gets.
    pub next_index: nat,
    /// All bytes sent to the terminal so far.
    pub fed: Seq<u8>,
    /// The time of the latest event, where no snapshot shows it yet.
    pub unflushed: Option<u64>,
}

/// The state before the first line.
pub open spec fn initial_state() -> SamplerState {
    SamplerState { last_frame_time: 0, next_index: 0, fed: Seq::empty(), unflushed: None }
}

/// The number of snapshots that an event at `time` gives rise to when the
/// last emitted event was at `last`: one for every whole interval between
/// the two, and none for an event that is not later.
pub open spec fn frames_due(interval: u64, last: nat, time: nat) -> nat {
    if time >= last && interval > 0 {
        ((time - last) / (interval as int)) as nat
    } else {
        0
    }
}

/// Snapshot number `k` of a run of snapshots that starts with index `index`
/// at time `time`: each one is one interval later than the one before, and
/// all show the same screen.
pub open spec fn run_frame(
    interval: u64,
    index: nat,
    time: nat,
    screen: ScreenView,
    k: int,
) -> TerminalFrameView {
    TerminalFrameView {
        index: (index + k) as nat,
        time: (time + k * interval) as nat,
        screen,
    }
}

/// A run of `count` snapshots of the screen that the terminal shows after
/// `fed`, followed by `tail`. Where the emulator cannot give the screen, the
/// run and all that follows is replaced by that error.
pub open spec fn emit_then(
    cfg: SamplerConfig,
    index: nat,
    time: nat,
    count: nat,
    fed: Seq<u8>,
    tail: Seq<SampleItem>,
) -> Seq<SampleItem> {
    if count == 0 {
        tail
    } else {
        match emulated_screen(cfg.rows, cfg.cols, fed) {
            None => seq![Err(missing_cell_error())],
            Some(screen) => Seq::new(
                count,
                |k: int| Ok(run_frame(cfg.interval, index, time, screen, k)),
            ) + tail,
        }
    }
}

/// The state after an output event at `time` that sent `bytes`.
pub open spec fn state_after_event(
    cfg: SamplerConfig,
    st: SamplerState,
    time: u64,
    bytes: Seq<u8>,
) -> SamplerState {
    let due = frames_due(cfg.interval, st.last_frame_time, time as nat);
    if due == 0 {
        SamplerState { fed: st.fed + bytes, unflushed: Some(time), ..st }
    } else {
        SamplerState {
            last_frame_time: time as nat,
            next_index: st.next_index + due,
            fed: st.fed + bytes,
            unflushed: None,
        }
    }
}

/// The output of the sampler in state `st` on the lines that are left.
///
/// An empty line changes nothing. An output event is sent to the terminal
/// and emitted once for every whole interval since the last emitted event.
/// Any other line ends the output with its error. At the end of the lines
/// an event that no snapshot shows yet is emitted once.
pub open spec fn sample_from(cfg: SamplerConfig, st: SamplerState, lines: Seq<FrameLine>) -> Seq<
    SampleItem,
>
    decreases lines.len(),
{
    if lines.len() == 0 {
        match st.unflushed {
            Some(time) => emit_then(cfg, st.next_index, time as nat, 1, st.fed, Seq::empty()),
            None => Seq::empty(),
        }
    } else {
        match line_meaning(lines[0]) {
            LineMeaning::Skip => sample_from(cfg, st, lines.drop_first()),
            LineMeaning::Fail(e) => seq![Err(e)],
            LineMeaning::Event { time, output } => {
                let next = state_after_event(cfg, st, time, output);
                emit_then(
                    cfg,
                    st.next_index,
                    time as nat,
                    frames_due(cfg.interval, st.last_frame_time, time as nat),
                    next.fed,
                    sample_from(cfg, next, lines.drop_first()),
                )
            },
        }
    }
}

/// The output of sampling the lines of a recording whose header declares a
/// screen of `rows` by `cols` cells, at one snapshot per `interval`.
pub open spec fn sampled(rows: u16, cols: u16, interval: u64, lines: Seq<FrameLine>) -> Seq<
    SampleItem,
> {
    sample_from(SamplerConfig { rows, cols, interval }, initial_state(), lines)
}

/// The view of an item that the sampler hands out.
pub open spec fn item_view(item: Result<TerminalFrame, AsciinemaError>) -> SampleItem {
    match item {
        Ok(frame) => Ok(frame@),
        Err(e) => Err(e@),
    }
}

/// A lazy sequence of the snapshots of one recording.
pub struct TerminalFrameIter {
    /// The index of the next snapshot.
    next_index: u64,
    /// The interval between snapshots, in microseconds.
    interval: u64,
    /// The time of the event that was emitted last.
    last_frame_time: u64,
    /// How many snapshots of the current run are still to come.
    fill_left: u64,
    /// The time of the next snapshot of the current run.
    fill_time: u64,
    /// The time of the latest event, where no snapshot shows it yet.
    unflushed: Option<u64>,
    /// Whether the sequence has ended.
    done: bool,
    /// The terminal emulator.
    parser: vt100::Parser,
    /// All bytes sent to the emulator so far.
    fed: Ghost<Seq<u8>>,
    /// The lines of the recording after the header.
    lines: Vec<FrameLine>,
    /// The number of lines consumed.
    pos: usize,
}

impl TerminalFrameIter {
    /// The invariant of the sampler.
    pub closed spec fn wf(&self) -> bool {
        &&& self.interval > 0
        &&& self.pos <= self.lines@.len()
        &&& parser_histories(self.parser).contains(self.fed@)
        &&& holds_screen(parser_size(self.parser).0, parser_size(self.parser).1)
        &&& self.last_frame_time <= MAX_FRAME_TIME
        &&& self.fill_left > 0 ==> self.unflushed is None
        &&& self.fill_left > 0 ==> self.fill_time + (self.fill_left - 1) * self.interval
            <= u64::MAX
        &&& {
            ||| (self.next_index + self.fill_left) * self.interval <= self.last_frame_time
            ||| (self.pos == self.lines@.len() && self.unflushed is None && self.next_index
                + self.fill_left <= MAX_FRAME_TIME + 1)
        }
    }

    /// What the sampler was set up with.
    pub closed spec fn config(&self) -> SamplerConfig {
        SamplerConfig {
            rows: parser_size(self.parser).0,
            cols: parser_size(self.parser).1,
            interval: self.interval,
        }
    }

    /// The index that the next snapshot gets.
    pub closed spec fn index_of_next(&self) -> nat {
        self.next_index as nat
    }

    /// The sampler's state between two lines, as it will stand once the
    /// snapshots of the run at hand have been handed out.
    pub closed spec fn state(&self) -> SamplerState {
        SamplerState {
            last_frame_time: self.last_frame_time as nat,
            next_index: (self.next_index + self.fill_left) as nat,
            fed: self.fed@,
            unflushed: self.unflushed,
        }
    }

    /// The lines that the sampler has not read yet.
    pub closed spec fn unread(&self) -> Seq<FrameLine> {
        self.lines@.skip(self.pos as int)
    }

    /// Whether the sampler has not ended and no snapshot of a run is still
    /// to be handed out, so that the next item comes from the unread lines.
    pub closed spec fn at_rest(&self) -> bool {
        !self.done && self.fill_left == 0
    }

    /// At rest, what is still to come is the output of the sampler's state
    /// on the unread lines, and the next index is the state's.
    pub proof fn lemma_remaining_at_rest(&self)
        requires
            self.at_rest(),
        ensures
            self.remaining() == sample_from(self.config(), self.state(), self.unread()),
            self.index_of_next() == self.state().next_index,
    {
    }

    /// Sampling rate, at the sampler: when the sampler is at rest and the
    /// next unread line is an output event that comes `gap` microseconds
    /// after the last emitted event, with a screen that the emulator can
    /// give, then the next `gap / interval` items, rounded down, are
    /// snapshots of this event, and only after them a further line is
    /// read. The snapshots carry consecutive indices from the next index
    /// on and the times of the event, one interval apart, and all show the
    /// screen as it stands after the event.
    pub proof fn lemma_next_event_emits_floor(&self, time: u64, output: Seq<u8>, screen: ScreenView)
        requires
            self.wf(),
            self.at_rest(),
            self.unread().len() > 0,
            line_meaning(self.unread()[0]) == (LineMeaning::Event { time, output }),
            self.state().last_frame_time <= time,
            emulated_screen(self.config().rows, self.config().cols, self.state().fed + output)
                == Some(screen),
        ensures
            ({
                let count = (time - self.state().last_frame_time) / (self.config().interval as int);
                let after = state_after_event(self.config(), self.state(), time, output);
                &&& time - self.state().last_frame_time < self.config().interval ==> count == 0
                &&& count <= self.remaining().len()
                &&& forall|k: int|
                    0 <= k < count ==> #[trigger] self.remaining()[k] == Ok::<
                        TerminalFrameView,
                        AsciinemaErrorView,
                    >(
                        TerminalFrameView {
                            index: (self.index_of_next() + k) as nat,
                            time: (time + k * self.config().interval) as nat,
                            screen,
                        },
                    )
                &&& self.remaining().skip(count) == sample_from(
                    self.config(),
                    after,
                    self.unread().drop_first(),
                )
                &&& count > 0 ==> after.last_frame_time == time
                &&& after.fed == self.state().fed + output
            }),
    {
        self.lemma_remaining_at_rest();
        lemma_event_emits_floor(self.config(), self.state(), self.unread(), time, output, screen);
        let gap = time - self.state().last_frame_time;
        vstd::arithmetic::div_mod::lemma_div_pos_is_pos(gap, self.config().interval as int);
    }

    /// The index of the next snapshot is at most one above
    /// [`MAX_FRAME_TIME`].
    pub proof fn lemma_index_in_range(&self)
        requires
            self.wf(),
        ensures
            self.index_of_next() <= MAX_FRAME_TIME + 1,
    {
        assert((self.next_index + self.fill_left) * self.interval >= self.next_index
            + self.fill_left) by (nonlinear_arith)
            requires
                self.interval >= 1,
                self.next_index + self.fill_left >= 0,
        ;
    }

    /// The items that are still to come, in order.
    pub closed spec fn remaining(&self) -> Seq<SampleItem> {
        if self.done {
            Seq::empty()
        } else {
            emit_then(
                self.config(),
                self.next_index as nat,
                self.fill_time as nat,
                self.fill_left as nat,
                self.fed@,
                sample_from(
                    self.config(),
                    SamplerState {
                        last_frame_time: self.last_frame_time as nat,
                        next_index: (self.next_index + self.fill_left) as nat,
                        fed: self.fed@,
                        unflushed: self.unflushed,
                    },
                    self.lines@.skip(self.pos as int),
                ),
            )
        }
    }

    /// Sets up the sampling of a recording: `header` is what the first line
    /// gave, `lines` what the lines after it gave, and `interval` the time
    /// between two snapshots, in microseconds.
    ///
    /// The header is judged before any line is looked at: see
    /// [`header_verdict`].
    pub fn new(header: HeaderLine, lines: Vec<FrameLine>, interval: u64) -> (r: Result<
        TerminalFrameIter,
        AsciinemaError,
    >)
        requires
            interval > 0,
        ensures
            match r {
                Ok(iter) => {
                    &&& header_verdict(header) is None
                    &&& header matches HeaderLine::Decoded(meta)
                    &&& iter.wf()
                    &&& iter.index_of_next() == 0
                    &&& iter.at_rest()
                    &&& iter.state() == initial_state()
                    &&& iter.unread() == lines@
                    &&& iter.config() == (SamplerConfig {
                        rows: meta.height,
                        cols: meta.width,
                        interval,
                    })
                    &&& iter.remaining() == sampled(meta.height, meta.width, interval, lines@)
                },
                Err(e) => header_verdict(header) == Some(e@),
            },
    {
        let meta = match header {
            HeaderLine::Missing => {
                return Err(
                    AsciinemaError::GenericParserError(
                        String::from_str("Missing cast metadata line"),
                    ),
                );
            },
            HeaderLine::Unreadable(e) => {
                return Err(AsciinemaError::IoError(e));
            },
            HeaderLine::Undecodable(e) => {
                return Err(AsciinemaError::ParseError(e));
            },
            HeaderLine::Decoded(meta) => meta,
        };
        if meta.version != 2 {
            return Err(AsciinemaError::InvalidVersion(meta.version));
        }
        if meta.height < MIN_SCREEN_SIDE || meta.width < MIN_SCREEN_SIDE || meta.width
            > MAX_SCREEN_COLS {
            return Err(
                AsciinemaError::GenericParserError(
                    String::from_str(
                        "The cast declares a terminal with fewer than 2 rows or columns or with more than 65527 columns",
                    ),
                ),
            );
        }
        let parser = term_new(meta.height, meta.width);
        let iter = TerminalFrameIter {
            next_index: 0,
            interval,
            last_frame_time: 0,
            fill_left: 0,
            fill_time: 0,
            unflushed: None,
            done: false,
            parser,
            fed: Ghost(Seq::empty()),
            lines,
            pos: 0,
        };
        proof {
            assert(iter.lines@.skip(0) =~= lines@);
        }
        Ok(iter)
    }

    /// The number of snapshots due for an event at `time`.
    fn due(&self, time: u64) -> (n: u64)
        requires
            self.interval > 0,
        ensures
            n == frames_due(self.interval, self.last_frame_time as nat, time as nat),
    {
        if time >= self.last_frame_time {
            (time - self.last_frame_time) / self.interval
        } else {
            0
        }
    }

    /// Hands out the next item: `None` once the sequence has ended, else the
    /// next snapshot or the error that ends the sequence.
    pub fn next(&mut self) -> (item: Option<Result<TerminalFrame, AsciinemaError>>)
        requires
            old(self).wf(),
        ensures
            final(self).wf(),
            final(self).config() == old(self).config(),
            match item {
                None => old(self).remaining().len() == 0 && final(self).remaining().len() == 0,
                Some(it) => {
                    &&& old(self).remaining().len() > 0
                    &&& item_view(it) == old(self).remaining()[0]
                    &&& final(self).remaining() == old(self).remaining().drop_first()
                },
            },
            match item {
                Some(Ok(frame)) => {
                    &&& frame.index == old(self).index_of_next()
                    &&& frame.index <= MAX_FRAME_TIME
                    &&& final(self).index_of_next() == frame.index + 1
                },
                _ => final(self).index_of_next() == old(self).index_of_next(),
            },
    {
        loop
            invariant
                self.wf(),
                self.config() == old(self).config(),
                self.remaining() == old(self).remaining(),
                self.index_of_next() == old(self).index_of_next(),
            decreases (self.lines@.len() - self.pos) * 2 + (if self.unflushed is Some {
                1int
            } else {
                0int
            }),
        {
            if self.done {
                return None;
            }
            let ghost cfg = self.config();
            if self.fill_left > 0 {
                let ghost tail = sample_from(
                    cfg,
                    SamplerState {
                        last_frame_time: self.last_frame_time as nat,
                        next_index: (self.next_index + self.fill_left) as nat,
                        fed: self.fed@,
                        unflushed: self.unflushed,
                    },
                    self.lines@.skip(self.pos as int),
                );
                match Screen::capture(&self.parser) {
                    None => {
                        self.done = true;
                        let e = AsciinemaError::GenericParserError(
                            String::from_str(
                                "The terminal emulator is missing a cell of its screen",
                            ),
                        );
                        proof {
                            assert(old(self).remaining() =~= seq![Err(missing_cell_error())]);
                            assert(old(self).remaining().drop_first() =~= Seq::empty());
                        }
                        return Some(Err(e));
                    },
                    Some(screen) => {
                        proof {
                            lemma_emit_step(
                                cfg,
                                self.next_index as nat,
                                self.fill_time as nat,
                                self.fill_left as nat,
                                self.fed@,
                                tail,
                                screen@,
                            );
                            lemma_run_bounds(
                                self.interval,
                                self.next_index,
                                self.fill_left,
                                self.fill_time,
                                self.last_frame_time,
                            );
                        }
                        let frame = TerminalFrame {
                            index: self.next_index,
                            time: self.fill_time,
                            screen,
                        };
                        self.next_index = self.next_index + 1;
                        self.fill_left = self.fill_left - 1;
                        if self.fill_left > 0 {
                            self.fill_time = self.fill_time + self.interval;
                        }
                        return Some(Ok(frame));
                    },
                }
            }
            if self.pos >= self.lines.len() {
                proof {
                    assert(self.lines@.skip(self.pos as int).len() == 0);
                }
                match self.unflushed {
                    Some(time) => {
                        proof {
                            lemma_index_bound(
                                self.interval,
                                self.next_index,
                                self.last_frame_time,
                            );
                        }
                        self.fill_left = 1;
                        self.fill_time = time;
                        self.unflushed = None;
                    },
                    None => {
                        self.done = true;
                        return None;
                    },
                }
            } else {
                let ghost before = self.lines@.skip(self.pos as int);
                proof {
                    assert(before[0] == self.lines@[self.pos as int]);
                    assert(before.drop_first() =~= self.lines@.skip(self.pos + 1));
                }
                match classify(&self.lines[self.pos]) {
                    LineKind::Skip => {
                        self.pos = self.pos + 1;
                    },
                    LineKind::Fail(e) => {
                        self.pos = self.pos + 1;
                        self.done = true;
                        proof {
                            assert(old(self).remaining() =~= seq![Err(e@)]);
                            assert(old(self).remaining().drop_first() =~= Seq::empty());
                        }
                        return Some(Err(e));
                    },
                    LineKind::Event { time, output } => {
                        term_process(&mut self.parser, output);
                        let due = self.due(time);
                        proof {
                            lemma_event_bounds(
                                self.interval,
                                self.next_index,
                                self.last_frame_time,
                                time,
                            );
                        }
                        self.fed = Ghost(self.fed@ + output@);
                        self.pos = self.pos + 1;
                        if due == 0 {
                            self.unflushed = Some(time);
                        } else {
                            self.last_frame_time = time;
                            self.fill_left = due;
                            self.fill_time = time;
                            self.unflushed = None;
                        }
                    },
                }
            }
        }
    }
}

/// The first item of a run that is not empty, and what follows it.
proof fn lemma_emit_step(
    cfg: SamplerConfig,
    index: nat,
    time: nat,
    count: nat,
    fed: Seq<u8>,
    tail: Seq<SampleItem>,
    screen: ScreenView,
)
    requires
        count > 0,
        emulated_screen(cfg.rows, cfg.cols, fed) == Some(screen),
    ensures
        emit_then(cfg, index, time, count, fed, tail).len() > 0,
        emit_then(cfg, index, time, count, fed, tail)[0] == Ok::<
            TerminalFrameView,
            AsciinemaErrorView,
        >(TerminalFrameView { index, time, screen }),
        emit_then(cfg, index, time, count, fed, tail).drop_first() == emit_then(
            cfg,
            index + 1,
            time + cfg.interval as nat,
            (count - 1) as nat,
            fed,
            tail,
        ),
{
    let whole = emit_then(cfg, index, time, count, fed, tail);
    let rest = emit_then(
        cfg,
        index + 1,
        time + cfg.interval as nat,
        (count - 1) as nat,
        fed,
        tail,
    );
    assert(whole[0] == Ok::<TerminalFrameView, AsciinemaErrorView>(
        run_frame(cfg.interval, index, time, screen, 0),
    ));
    assert(whole.drop_first().len() == rest.len());
    assert forall|i: int| 0 <= i < rest.len() implies whole.drop_first()[i] == rest[i] by {
        if i < count - 1 {
            assert((i + 1) * cfg.interval == cfg.interval + i * cfg.interval)
                by (nonlinear_arith);
            assert(run_frame(cfg.interval, index, time, screen, i + 1) == run_frame(
                cfg.interval,
                index + 1,
                time + cfg.interval as nat,
                screen,
                i,
            ));
        }
    }
    assert(whole.drop_first() =~= rest);
}

/// While a run lasts, the next index and the next time stay in range.
proof fn lemma_run_bounds(interval: u64, next_index: u64, fill_left: u64, fill_time: u64, last: u64)
    requires
        interval > 0,
        fill_left > 0,
        last <= MAX_FRAME_TIME,
        fill_time + (fill_left - 1) * interval <= u64::MAX,
        (next_index + fill_left) * interval <= last || next_index + fill_left <= MAX_FRAME_TIME
            + 1,
    ensures
        next_index + 1 <= u64::MAX,
        next_index + fill_left <= MAX_FRAME_TIME + 1,
        fill_left > 1 ==> fill_time + interval <= u64::MAX,
        fill_left > 1 ==> fill_time + interval + (fill_left - 2) * interval <= u64::MAX,
        (next_index + fill_left) * interval <= last ==> (next_index + 1 + (fill_left - 1))
            * interval <= last,
{
    assert((next_index + fill_left) * interval >= next_index + fill_left) by (nonlinear_arith)
        requires
            interval >= 1,
            next_index + fill_left >= 0,
    ;
    if fill_left > 1 {
        assert((fill_left - 1) * interval == interval + (fill_left - 2) * interval)
            by (nonlinear_arith);
        assert((fill_left - 2) * interval >= 0) by (nonlinear_arith)
            requires
                fill_left >= 2,
                interval >= 0,
        ;
    }
}

/// Before the flush at the end of the lines, one more index is in range.
proof fn lemma_index_bound(interval: u64, next_index: u64, last: u64)
    requires
        interval > 0,
        last <= MAX_FRAME_TIME,
        next_index * interval <= last || next_index <= MAX_FRAME_TIME + 1,
    ensures
        next_index * interval <= last ==> next_index + 1 <= MAX_FRAME_TIME + 1,
{
    assert(next_index * interval >= next_index) by (nonlinear_arith)
        requires
            interval >= 1,
            next_index >= 0,
    ;
}

/// An event that is due keeps the indices and the times of its run in range.
proof fn lemma_event_bounds(interval: u64, next_index: u64, last: u64, time: u64)
    requires
        interval > 0,
        time <= MAX_FRAME_TIME,
        next_index * interval <= last,
    ensures
        ({
            let due = frames_due(interval, last as nat, time as nat);
            &&& due <= time
            &&& due > 0 ==> (next_index + due) * interval <= time
            &&& due > 0 ==> time + (due - 1) * interval <= u64::MAX
        }),
{
    let due = frames_due(interval, last as nat, time as nat);
    if time >= last {
        let gap = time - last;
        assert(due * interval <= gap) by {
            vstd::arithmetic::div_mod::lemma_fundamental_div_mod(gap, interval as int);
            vstd::arithmetic::div_mod::lemma_mod_pos_bound(gap, interval as int);
            assert(interval * (gap / (interval as int)) == (gap / (interval as int)) * interval)
                by (nonlinear_arith);
        }
        assert((next_index + due) * interval == next_index * interval + due * interval)
            by (nonlinear_arith);
        assert(due * interval >= due) by (nonlinear_arith)
            requires
                interval >= 1,
                due >= 0,
        ;
        if due > 0 {
            assert((due - 1) * interval <= due * interval) by (nonlinear_arith)
                requires
                    interval >= 0,
            ;
        }
    }
}

/// Whether the items from position `from` on carry consecutive indices that
/// start at `first`, with an error, if any, as the last item.
pub open spec fn dense_from(items: Seq<SampleItem>, first: nat) -> bool {
    forall|i: int|
        0 <= i < items.len() ==> match #[trigger] items[i] {
            Ok(frame) => frame.index == first + i,
            Err(_) => i == items.len() - 1,
        }
}

/// A run followed by a dense tail is dense.
proof fn lemma_emit_dense(
    cfg: SamplerConfig,
    index: nat,
    time: nat,
    count: nat,
    fed: Seq<u8>,
    tail: Seq<SampleItem>,
)
    requires
        dense_from(tail, index + count),
    ensures
        dense_from(emit_then(cfg, index, time, count, fed, tail), index),
{
    let items = emit_then(cfg, index, time, count, fed, tail);
    assert forall|i: int| 0 <= i < items.len() implies match #[trigger] items[i] {
        Ok(frame) => frame.index == index + i,
        Err(_) => i == items.len() - 1,
    } by {
        if count > 0 && emulated_screen(cfg.rows, cfg.cols, fed) is Some {
            if i >= count {
                assert(items[i] == tail[i - count]);
            }
        } else if count == 0 {
            assert(items[i] == tail[i]);
        }
    }
}

/// The sampler numbers its snapshots without gaps, from the state's next
/// index on, and an error ends its output.
pub proof fn lemma_sample_from_dense(cfg: SamplerConfig, st: SamplerState, lines: Seq<FrameLine>)
    ensures
        dense_from(sample_from(cfg, st, lines), st.next_index),
    decreases lines.len(),
{
    if lines.len() == 0 {
        match st.unflushed {
            Some(time) => {
                lemma_emit_dense(cfg, st.next_index, time as nat, 1, st.fed, Seq::empty());
            },
            None => {},
        }
    } else {
        match line_meaning(lines[0]) {
            LineMeaning::Skip => {
                lemma_sample_from_dense(cfg, st, lines.drop_first());
            },
            LineMeaning::Fail(e) => {},
            LineMeaning::Event { time, output } => {
                let next = state_after_event(cfg, st, time, output);
                let due = frames_due(cfg.interval, st.last_frame_time, time as nat);
                lemma_sample_from_dense(cfg, next, lines.drop_first());
                lemma_emit_dense(
                    cfg,
                    st.next_index,
                    time as nat,
                    due,
                    next.fed,
                    sample_from(cfg, next, lines.drop_first()),
                );
            },
        }
    }
}

/// Index density: the snapshots of a recording carry the indices 0, 1, 2, ...
/// in the order in which they are emitted, each index once, and an error,
/// where there is one, is the last item.
pub proof fn lemma_indices_dense(rows: u16, cols: u16, interval: u64, lines: Seq<FrameLine>)
    ensures
        forall|i: int|
            0 <= i < sampled(rows, cols, interval, lines).len() ==> match #[trigger] sampled(
                rows,
                cols,
                interval,
                lines,
            )[i] {
                Ok(frame) => frame.index == i,
                Err(_) => i == sampled(rows, cols, interval, lines).len() - 1,
            },
{
    lemma_sample_from_dense(SamplerConfig { rows, cols, interval }, initial_state(), lines);
}

/// Sampling rate: an output event that comes `gap` microseconds after the
/// last emitted event, with a screen that the emulator can give, is emitted
/// exactly `gap / interval` times, rounded down: first with its own time
/// and the screen as it stands after the event, then once per interval with
/// the same screen. An event that comes less than one interval after the
/// last emitted event is not emitted, yet it has reached the terminal.
pub proof fn lemma_event_emits_floor(
    cfg: SamplerConfig,
    st: SamplerState,
    lines: Seq<FrameLine>,
    time: u64,
    output: Seq<u8>,
    screen: ScreenView,
)
    requires
        cfg.interval > 0,
        lines.len() > 0,
        line_meaning(lines[0]) == (LineMeaning::Event { time, output }),
        st.last_frame_time <= time,
        emulated_screen(cfg.rows, cfg.cols, st.fed + output) == Some(screen),
    ensures
        ({
            let count = (time - st.last_frame_time) / (cfg.interval as int);
            let out = sample_from(cfg, st, lines);
            let next = state_after_event(cfg, st, time, output);
            &&& time - st.last_frame_time < cfg.interval ==> count == 0
            &&& next.fed == st.fed + output
            &&& next.next_index == st.next_index + count
            &&& out.len() == count + sample_from(cfg, next, lines.drop_first()).len()
            &&& out.skip(count) == sample_from(cfg, next, lines.drop_first())
            &&& forall|k: int|
                0 <= k < count ==> #[trigger] out[k] == Ok::<TerminalFrameView, AsciinemaErrorView>(
                    TerminalFrameView {
                        index: (st.next_index + k) as nat,
                        time: (time + k * cfg.interval) as nat,
                        screen,
                    },
                )
        }),
{
    let gap = time - st.last_frame_time;
    let count = gap / (cfg.interval as int);
    let out = sample_from(cfg, st, lines);
    let next = state_after_event(cfg, st, time, output);
    let tail = sample_from(cfg, next, lines.drop_first());
    if gap < cfg.interval {
        vstd::arithmetic::div_mod::lemma_basic_div(gap, cfg.interval as int);
    }
    vstd::arithmetic::div_mod::lemma_div_pos_is_pos(gap, cfg.interval as int);
    assert(out == emit_then(cfg, st.next_index, time as nat, count as nat, next.fed, tail));
    assert(out.skip(count) =~= tail);
}

/// Repeatability: what the sampler emits depends on the lines only through
/// what they mean. Sampling two sources that agree line by line, with the
/// same screen size and interval, gives the same snapshots: the same
/// indices, times and screens.
pub proof fn lemma_resampling_is_identical(
    cfg: SamplerConfig,
    st: SamplerState,
    first: Seq<FrameLine>,
    second: Seq<FrameLine>,
)
    requires
        first.len() == second.len(),
        forall|i: int| 0 <= i < first.len() ==> line_meaning(first[i]) == line_meaning(second[i]),
    ensures
        sample_from(cfg, st, first) == sample_from(cfg, st, second),
    decreases first.len(),
{
    if first.len() > 0 {
        assert(line_meaning(first[0]) == line_meaning(second[0]));
        assert forall|i: int| 0 <= i < first.drop_first().len() implies line_meaning(
            first.drop_first()[i],
        ) == line_meaning(second.drop_first()[i]) by {
            assert(first.drop_first()[i] == first[i + 1]);
            assert(second.drop_first()[i] == second[i + 1]);
        }
        match line_meaning(first[0]) {
            LineMeaning::Skip => {
                lemma_resampling_is_identical(cfg, st, first.drop_first(), second.drop_first());
            },
            LineMeaning::Fail(e) => {},
            LineMeaning::Event { time, output } => {
                let next = state_after_event(cfg, st, time, output);
                lemma_resampling_is_identical(cfg, next, first.drop_first(), second.drop_first());
            },
        }
    }
}

/// Whether every snapshot among the items shows a screen of the given size.
pub open spec fn screens_sized(items: Seq<SampleItem>, rows: u16, cols: u16) -> bool {
    forall|i: int|
        0 <= i < items.len() ==> match #[trigger] items[i] {
            Ok(frame) => frame.screen.rows == rows && frame.screen.cols == cols,
            Err(_) => true,
        }
}

/// Every snapshot shows a screen of the size that the sampler was set up
/// with.
pub proof fn lemma_sample_from_sized(cfg: SamplerConfig, st: SamplerState, lines: Seq<FrameLine>)
    ensures
        screens_sized(sample_from(cfg, st, lines), cfg.rows, cfg.cols),
    decreases lines.len(),
{
    if lines.len() == 0 {
    } else {
        match line_meaning(lines[0]) {
            LineMeaning::Skip => {
                lemma_sample_from_sized(cfg, st, lines.drop_first());
            },
            LineMeaning::Fail(e) => {},
            LineMeaning::Event { time, output } => {
                let next = state_after_event(cfg, st, time, output);
                let due = frames_due(cfg.interval, st.last_frame_time, time as nat);
                let tail = sample_from(cfg, next, lines.drop_first());
                lemma_sample_from_sized(cfg, next, lines.drop_first());
                let items = sample_from(cfg, st, lines);
                assert forall|i: int| 0 <= i < items.len() implies match #[trigger] items[i] {
                    Ok(frame) => frame.screen.rows == cfg.rows && frame.screen.cols == cfg.cols,
                    Err(_) => true,
                } by {
                    if due > 0 && emulated_screen(cfg.rows, cfg.cols, next.fed) is Some {
                        if i >= due {
                            assert(items[i] == tail[i - due]);
                        }
                    } else if due == 0 {
                        assert(items[i] == tail[i]);
                    }
                }
            },
        }
    }
}

} // verus!
