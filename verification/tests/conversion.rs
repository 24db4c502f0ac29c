use cast2gif::cast_parser::{AsciinemaCastMeta, AsciinemaFrame, FrameLine, HeaderLine};
use cast2gif::{
    convert_to_gif, convert_to_gif_with_progress, AsciinemaError, CastProgressHandler,
    CastRenderProgress, Error,
};

struct Recorder {
    seen: Vec<CastRenderProgress>,
}

impl CastProgressHandler for Recorder {
    fn update_progress(&mut self, progress: &CastRenderProgress) {
        self.seen.push(*progress);
    }
}

fn header(version: u16) -> HeaderLine {
    HeaderLine::Decoded(AsciinemaCastMeta {
        version,
        width: 8,
        height: 2,
        timestamp: 1_600_000_000,
        env: Vec::new(),
    })
}

fn event(time: u64, kind: &str, output: &str) -> FrameLine {
    FrameLine::Text {
        line: format!("[{}, \"{}\", \"{}\"]", time, kind, output),
        frame: Some(AsciinemaFrame {
            time,
            command: kind.to_string(),
            output: output.to_string(),
        }),
    }
}

#[test]
fn recording_becomes_one_frame_per_snapshot() {
    let lines = vec![
        event(6_000_000, "o", "\u{1b}[41m a"),
        event(6_000_001, "o", "b"),
        event(21_000_000, "o", "c"),
    ];
    let options = usvg::Options::default();
    let mut recorder = Recorder { seen: Vec::new() };
    let (result, progress) =
        convert_to_gif_with_progress(header(2), lines, 5_000_000, &options, &mut recorder);
    let animation = result.expect("an animation");
    assert_eq!(progress, CastRenderProgress { count: 4, raster_progress: 4, sequence_progress: 4 });
    assert_eq!((animation.width, animation.height), (48, 20));
    assert_eq!(animation.frames.len(), 4);
    let delays: Vec<u16> = animation.frames.iter().map(|f| f.delay).collect();
    // snapshots at 6 s, then 21 s, 26 s and 31 s
    assert_eq!(delays, vec![1, 2, 1, 1]);
    for frame in &animation.frames {
        assert_eq!((frame.width, frame.height), (48, 20));
        assert_eq!(frame.buffer.len(), 48 * 20);
    }
    let last = recorder.seen.last().unwrap();
    assert_eq!(*last, CastRenderProgress { count: 4, raster_progress: 4, sequence_progress: 4 });
    assert_eq!(recorder.seen.len(), 12);
    assert_eq!(recorder.seen[0], CastRenderProgress { count: 1, raster_progress: 0, sequence_progress: 0 });
    assert_eq!(recorder.seen[1], CastRenderProgress { count: 1, raster_progress: 1, sequence_progress: 0 });
}

#[test]
fn conversion_rejects_other_versions() {
    let options = usvg::Options::default();
    match convert_to_gif(header(1), vec![event(1_000_000, "o", "a")], 100_000, &options) {
        Err(Error::AsciinemaError(AsciinemaError::InvalidVersion(1))) => {}
        _ => panic!("version 1 was converted"),
    }
}

#[test]
fn conversion_fails_on_an_unsupported_event() {
    let options = usvg::Options::default();
    let lines = vec![event(1_000_000, "x", "payload")];
    match convert_to_gif(header(2), lines, 100_000, &options) {
        Err(Error::AsciinemaError(AsciinemaError::GenericParserError(m))) => {
            assert!(m.starts_with("Cast2Gif doesn't yet understand"))
        }
        _ => panic!("an unsupported event was converted"),
    }
}

#[test]
fn conversion_of_a_header_only_recording_has_no_frames() {
    let options = usvg::Options::default();
    match convert_to_gif(header(2), Vec::new(), 100_000, &options) {
        Err(Error::Generic(m)) => assert_eq!(m, "Got a gif with no frames"),
        _ => panic!("a recording without events was converted"),
    }
}

#[test]
fn rejected_version_counts_no_progress() {
    let options = usvg::Options::default();
    let mut recorder = Recorder { seen: Vec::new() };
    let header = HeaderLine::Decoded(AsciinemaCastMeta {
        version: 3,
        width: 80,
        height: 24,
        timestamp: 0,
        env: Vec::new(),
    });
    let (result, progress) =
        convert_to_gif_with_progress(header, Vec::new(), 100_000, &options, &mut recorder);
    assert!(matches!(result, Err(Error::AsciinemaError(AsciinemaError::InvalidVersion(3)))));
    assert_eq!(progress, CastRenderProgress::default());
    assert!(recorder.seen.is_empty());
}

#[test]
fn unsupported_event_counts_no_progress() {
    let options = usvg::Options::default();
    let mut recorder = Recorder { seen: Vec::new() };
    let (result, progress) = convert_to_gif_with_progress(
        header(2),
        vec![event(1_000_000, "x", "payload")],
        100_000,
        &options,
        &mut recorder,
    );
    assert!(matches!(
        result,
        Err(Error::AsciinemaError(AsciinemaError::GenericParserError(_)))
    ));
    assert_eq!(progress, CastRenderProgress::default());
    assert!(recorder.seen.is_empty());
}

#[test]
fn error_after_two_snapshots_leaves_them_counted() {
    let options = usvg::Options::default();
    let mut recorder = Recorder { seen: Vec::new() };
    let (result, progress) = convert_to_gif_with_progress(
        header(2),
        vec![event(200_000, "o", "a"), event(300_000, "k", "b")],
        100_000,
        &options,
        &mut recorder,
    );
    assert!(matches!(
        result,
        Err(Error::AsciinemaError(AsciinemaError::GenericParserError(_)))
    ));
    assert_eq!(progress, CastRenderProgress { count: 2, raster_progress: 2, sequence_progress: 0 });
    for shown in &recorder.seen {
        assert!(shown.raster_progress <= shown.count);
        assert_eq!(shown.sequence_progress, 0);
    }
}

#[test]
fn narrow_screen_with_a_wide_character_is_rejected() {
    let options = usvg::Options::default();
    let header = HeaderLine::Decoded(AsciinemaCastMeta {
        version: 2,
        width: 1,
        height: 24,
        timestamp: 0,
        env: Vec::new(),
    });
    match convert_to_gif(header, vec![event(1_000_000, "o", "\u{4e2d}")], 100_000, &options) {
        Err(Error::AsciinemaError(AsciinemaError::GenericParserError(m))) => assert_eq!(
            m,
            "The cast declares a terminal with fewer than 2 rows or columns or with more than 65527 columns"
        ),
        _ => panic!("a screen of one column was converted"),
    }
}
