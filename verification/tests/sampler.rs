use cast2gif::cast_parser::{
    classify, AsciinemaCastMeta, AsciinemaError, AsciinemaFrame, FrameLine, HeaderLine, LineKind,
    TerminalFrameIter, MAX_FRAME_TIME,
};
use cast2gif::types::TerminalFrame;

fn header(version: u16, width: u16, height: u16) -> HeaderLine {
    HeaderLine::Decoded(AsciinemaCastMeta {
        version,
        width,
        height,
        timestamp: 0,
        env: vec![("TERM".to_string(), "xterm".to_string())],
    })
}

fn event(time: u64, kind: &str, output: &str) -> FrameLine {
    FrameLine::Text {
        line: format!("[{}, \"{}\", \"{}\"]", time, kind, output),
        frame: Some(AsciinemaFrame {
            time,
            command: kind.to_string(),
            output: output.to_string(),
        }),
    }
}

fn run(header: HeaderLine, lines: Vec<FrameLine>, interval: u64) -> Vec<Result<TerminalFrame, AsciinemaError>> {
    let mut iter = TerminalFrameIter::new(header, lines, interval).expect("header accepted");
    let mut out = Vec::new();
    while let Some(item) = iter.next() {
        out.push(item);
    }
    assert!(iter.next().is_none());
    out
}

fn text_at(frame: &TerminalFrame, row: u16, col: u16) -> String {
    frame.screen.cell(row, col).expect("cell in range").contents.clone()
}

#[test]
fn two_close_events_are_flushed_as_one_snapshot() {
    let items = run(
        header(2, 80, 24),
        vec![event(0, "o", "A"), event(50_000, "o", "B")],
        100_000,
    );
    assert_eq!(items.len(), 1);
    let frame = items[0].as_ref().expect("a snapshot");
    assert_eq!(frame.index, 0);
    assert_eq!(frame.time, 50_000);
    assert_eq!(frame.screen.size(), (24, 80));
    assert_eq!(text_at(frame, 0, 0), "A");
    assert_eq!(text_at(frame, 0, 1), "B");
    assert_eq!(text_at(frame, 0, 2), "");
    assert_eq!(frame.screen.cursor_position(), (0, 2));
}

#[test]
fn version_other_than_two_is_rejected() {
    for version in [0u16, 1, 3, 65535] {
        let r = TerminalFrameIter::new(header(version, 80, 24), vec![event(0, "o", "A")], 100_000);
        match r {
            Err(AsciinemaError::InvalidVersion(v)) => assert_eq!(v, version),
            _ => panic!("version {} was not rejected", version),
        }
    }
}

#[test]
fn version_is_judged_before_the_screen_size() {
    let r = TerminalFrameIter::new(header(1, 0, 0), vec![], 100_000);
    assert!(matches!(r, Err(AsciinemaError::InvalidVersion(1))));
}

#[test]
fn screen_that_the_emulator_cannot_hold_is_rejected() {
    for (width, height) in
        [(0u16, 24u16), (80, 0), (0, 0), (1, 24), (80, 1), (1, 1), (65528, 24), (65535, 2)]
    {
        let r = TerminalFrameIter::new(
            header(2, width, height),
            vec![event(1, "o", "\u{4e2d}")],
            100_000,
        );
        match r {
            Err(AsciinemaError::GenericParserError(m)) => assert_eq!(
                m,
                "The cast declares a terminal with fewer than 2 rows or columns or with more than 65527 columns"
            ),
            _ => panic!("a screen of {} by {} was not rejected", width, height),
        }
    }
}

#[test]
fn wide_characters_fit_the_narrowest_screen() {
    let items = run(
        header(2, 2, 2),
        vec![
            event(100_000, "o", "\u{4e2d}"),
            event(200_000, "o", "\u{6587}x\ty\r\n\u{5b57}\u{5b57}z"),
        ],
        100_000,
    );
    assert_eq!(items.len(), 2);
    assert_eq!(text_at(items[0].as_ref().unwrap(), 0, 0), "\u{4e2d}");
    assert_eq!(items[1].as_ref().unwrap().screen.size(), (2, 2));
}

#[test]
fn widest_screen_takes_tabs_at_its_end() {
    let mut text = String::from("\u{1b}[1;65527H");
    text.push_str("ab\t\tc");
    let items = run(header(2, 65527, 2), vec![event(100_000, "o", &text)], 100_000);
    assert_eq!(items.len(), 1);
    assert_eq!(items[0].as_ref().unwrap().screen.size(), (2, 65527));
}

#[test]
fn missing_header_is_rejected() {
    let r = TerminalFrameIter::new(HeaderLine::Missing, vec![], 100_000);
    match r {
        Err(AsciinemaError::GenericParserError(m)) => assert_eq!(m, "Missing cast metadata line"),
        _ => panic!("missing header was not rejected"),
    }
}

#[test]
fn unreadable_header_is_an_io_error() {
    let r = TerminalFrameIter::new(HeaderLine::Unreadable("disk gone".to_string()), vec![], 100_000);
    match r {
        Err(AsciinemaError::IoError(m)) => assert_eq!(m, "disk gone"),
        _ => panic!("unreadable header was not rejected"),
    }
}

#[test]
fn undecodable_header_is_a_parse_error() {
    let r = TerminalFrameIter::new(
        HeaderLine::Undecodable("expected value at line 1".to_string()),
        vec![],
        100_000,
    );
    match r {
        Err(AsciinemaError::ParseError(m)) => assert_eq!(m, "expected value at line 1"),
        _ => panic!("undecodable header was not rejected"),
    }
}

#[test]
fn header_only_recording_has_no_snapshots() {
    let items = run(header(2, 80, 24), vec![], 100_000);
    assert!(items.is_empty());
}

#[test]
fn unsupported_event_fails_without_frames() {
    let line = "[1.0,\"x\",\"payload\"]".to_string();
    let lines = vec![FrameLine::Text {
        line: line.clone(),
        frame: Some(AsciinemaFrame {
            time: 1_000_000,
            command: "x".to_string(),
            output: "payload".to_string(),
        }),
    }];
    let items = run(header(2, 80, 24), lines, 100_000);
    assert_eq!(items.len(), 1);
    match &items[0] {
        Err(AsciinemaError::GenericParserError(m)) => assert_eq!(
            m,
            &format!(
                "Cast2Gif doesn't yet understand asciinema files with something other than `o` in the second item of the record array. Please open an issue for this: {}",
                line
            )
        ),
        _ => panic!("unsupported event was accepted"),
    }
}

#[test]
fn unsupported_event_drops_what_was_not_emitted() {
    let items = run(
        header(2, 10, 2),
        vec![event(50_000, "o", "A"), event(60_000, "i", "B")],
        100_000,
    );
    assert_eq!(items.len(), 1);
    assert!(items[0].is_err());
}

#[test]
fn gap_of_ten_intervals_gives_ten_snapshots() {
    let items = run(header(2, 10, 2), vec![event(1_000_000, "o", "hi")], 100_000);
    assert_eq!(items.len(), 10);
    for (k, item) in items.iter().enumerate() {
        let frame = item.as_ref().expect("a snapshot");
        assert_eq!(frame.index, k as u64);
        assert_eq!(frame.time, 1_000_000 + 100_000 * k as u64);
        assert_eq!(text_at(frame, 0, 0), "h");
        assert_eq!(text_at(frame, 0, 1), "i");
    }
}

#[test]
fn gap_is_rounded_down_to_whole_intervals() {
    let items = run(header(2, 10, 2), vec![event(299_999, "o", "x")], 100_000);
    assert_eq!(items.len(), 2);
    let items = run(header(2, 10, 2), vec![event(300_000, "o", "x")], 100_000);
    assert_eq!(items.len(), 3);
    let items = run(header(2, 10, 2), vec![event(100_000, "o", "x")], 100_000);
    assert_eq!(items.len(), 1);
    let items = run(header(2, 10, 2), vec![event(99_999, "o", "x")], 100_000);
    assert_eq!(items.len(), 1);
    assert_eq!(items[0].as_ref().unwrap().time, 99_999);
}

#[test]
fn gap_is_measured_from_the_last_emitted_event() {
    let items = run(
        header(2, 10, 2),
        vec![
            event(200_000, "o", "a"),
            event(250_000, "o", "b"),
            event(290_000, "o", "c"),
            event(310_000, "o", "d"),
        ],
        100_000,
    );
    let stamps: Vec<(u64, u64)> = items
        .iter()
        .map(|item| {
            let f = item.as_ref().unwrap();
            (f.index, f.time)
        })
        .collect();
    assert_eq!(stamps, vec![(0, 200_000), (1, 300_000), (2, 310_000)]);
    let last = items[2].as_ref().unwrap();
    assert_eq!(text_at(last, 0, 3), "d");
    let first = items[0].as_ref().unwrap();
    assert_eq!(text_at(first, 0, 0), "a");
    assert_eq!(text_at(first, 0, 1), "");
}

#[test]
fn event_before_the_last_emitted_one_is_not_emitted_but_flushed() {
    let items = run(
        header(2, 10, 2),
        vec![event(500_000, "o", "a"), event(100_000, "o", "b")],
        100_000,
    );
    assert_eq!(items.len(), 6);
    let last = items[5].as_ref().unwrap();
    assert_eq!((last.index, last.time), (5, 100_000));
    assert_eq!(text_at(last, 0, 1), "b");
}

#[test]
fn indices_are_dense_and_ascending() {
    let items = run(
        header(2, 20, 4),
        vec![
            event(120_000, "o", "a"),
            event(130_000, "o", "b"),
            event(700_000, "o", "c"),
            event(710_000, "o", "d"),
            event(2_000_000, "o", "e"),
            event(2_000_001, "o", "f"),
        ],
        100_000,
    );
    assert_eq!(items.len(), 1 + 5 + 13 + 1);
    for (k, item) in items.iter().enumerate() {
        assert_eq!(item.as_ref().unwrap().index, k as u64);
    }
}

#[test]
fn sampling_twice_gives_identical_snapshots() {
    let make = || {
        vec![
            event(150_000, "o", "one\r\n"),
            event(180_000, "o", "\u{1b}[31mtwo"),
            event(900_000, "o", "\u{1b}[2Jthree"),
        ]
    };
    let a = run(header(2, 12, 3), make(), 100_000);
    let b = run(header(2, 12, 3), make(), 100_000);
    assert_eq!(a.len(), b.len());
    assert_eq!(a.len(), 8);
    for (x, y) in a.iter().zip(b.iter()) {
        let (x, y) = (x.as_ref().unwrap(), y.as_ref().unwrap());
        assert_eq!(x.index, y.index);
        assert_eq!(x.time, y.time);
        assert_eq!(x.screen.size(), y.screen.size());
        assert_eq!(x.screen.cursor_position(), y.screen.cursor_position());
        for row in 0..3 {
            for col in 0..12 {
                let (c, d) = (x.screen.cell(row, col).unwrap(), y.screen.cell(row, col).unwrap());
                assert_eq!(c.contents, d.contents);
                assert_eq!(c.has_contents, d.has_contents);
                assert_eq!(c.fgcolor, d.fgcolor);
                assert_eq!(c.bgcolor, d.bgcolor);
            }
        }
    }
}

#[test]
fn empty_lines_are_skipped() {
    let blank = || FrameLine::Text { line: String::new(), frame: None };
    let items = run(
        header(2, 10, 2),
        vec![blank(), event(100_000, "o", "a"), blank(), blank(), event(200_000, "o", "b"), blank()],
        100_000,
    );
    assert_eq!(items.len(), 2);
    assert_eq!(items[1].as_ref().unwrap().time, 200_000);
}

#[test]
fn malformed_line_names_the_line() {
    let items = run(
        header(2, 10, 2),
        vec![
            event(100_000, "o", "a"),
            FrameLine::Text { line: "{not a record".to_string(), frame: None },
            event(500_000, "o", "b"),
        ],
        100_000,
    );
    assert_eq!(items.len(), 2);
    assert!(items[0].is_ok());
    match &items[1] {
        Err(AsciinemaError::GenericParserError(m)) => {
            assert_eq!(m, "Error parsing asciinema frame: {not a record")
        }
        _ => panic!("malformed line was accepted"),
    }
}

#[test]
fn unreadable_line_is_an_io_error() {
    let items = run(
        header(2, 10, 2),
        vec![FrameLine::Unreadable("stream closed".to_string())],
        100_000,
    );
    assert_eq!(items.len(), 1);
    match &items[0] {
        Err(AsciinemaError::IoError(m)) => assert_eq!(m, "stream closed"),
        _ => panic!("unreadable line was accepted"),
    }
}

#[test]
fn time_beyond_the_limit_is_malformed() {
    let line = event(MAX_FRAME_TIME + 1, "o", "a");
    match classify(&line) {
        LineKind::Fail(AsciinemaError::GenericParserError(m)) => {
            assert!(m.starts_with("Error parsing asciinema frame: "))
        }
        _ => panic!("time beyond the limit was accepted"),
    }
    let line = event(MAX_FRAME_TIME, "o", "a");
    assert!(matches!(classify(&line), LineKind::Event { time: MAX_FRAME_TIME, .. }));
}

#[test]
fn largest_time_is_sampled_without_overflow() {
    let mut iter = TerminalFrameIter::new(
        header(2, 4, 2),
        vec![event(MAX_FRAME_TIME, "o", "z")],
        MAX_FRAME_TIME / 3,
    )
    .unwrap();
    let mut stamps = Vec::new();
    while let Some(item) = iter.next() {
        let f = item.unwrap();
        stamps.push((f.index, f.time));
    }
    let step = MAX_FRAME_TIME / 3;
    assert_eq!(
        stamps,
        vec![
            (0, MAX_FRAME_TIME),
            (1, MAX_FRAME_TIME + step),
            (2, MAX_FRAME_TIME + 2 * step)
        ]
    );
}

#[test]
fn classify_tells_the_kinds_of_lines_apart() {
    assert!(matches!(
        classify(&FrameLine::Text { line: String::new(), frame: None }),
        LineKind::Skip
    ));
    match classify(&event(7, "o", "h\u{e9}")) {
        LineKind::Event { time, output } => {
            assert_eq!(time, 7);
            assert_eq!(output, &[b'h', 0xc3, 0xa9][..]);
        }
        _ => panic!("output event was not recognised"),
    }
    assert!(matches!(
        classify(&FrameLine::Unreadable("e".to_string())),
        LineKind::Fail(AsciinemaError::IoError(_))
    ));
}
