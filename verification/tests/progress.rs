use cast2gif::progress_thread;
use cast2gif::types::ProgressCmd;
use cast2gif::{CastProgressHandler, CastRenderProgress, NullProgressHandler};

struct Recorder {
    seen: Vec<CastRenderProgress>,
}

impl CastProgressHandler for Recorder {
    fn update_progress(&mut self, progress: &CastRenderProgress) {
        self.seen.push(*progress);
    }
}

fn counters(count: u64, raster_progress: u64, sequence_progress: u64) -> CastRenderProgress {
    CastRenderProgress { count, raster_progress, sequence_progress }
}

#[test]
fn default_progress_is_zero() {
    assert_eq!(CastRenderProgress::default(), counters(0, 0, 0));
}

#[test]
fn each_command_advances_its_own_counter() {
    let mut p = counters(4, 2, 1);
    p.apply(ProgressCmd::IncrementCount);
    assert_eq!(p, counters(5, 2, 1));
    p.apply(ProgressCmd::IncrementRasterProgress);
    assert_eq!(p, counters(5, 3, 1));
    p.apply(ProgressCmd::IncrementSequenceProgress);
    assert_eq!(p, counters(5, 3, 2));
}

#[test]
fn handler_sees_the_counters_after_every_command() {
    let cmds = vec![
        ProgressCmd::IncrementCount,
        ProgressCmd::IncrementCount,
        ProgressCmd::IncrementRasterProgress,
        ProgressCmd::IncrementSequenceProgress,
        ProgressCmd::IncrementRasterProgress,
    ];
    let mut recorder = Recorder { seen: Vec::new() };
    let shown = progress_thread(&cmds, &mut recorder);
    assert_eq!(shown.last(), Some(&counters(2, 2, 1)));
    assert_eq!(shown, recorder.seen);
    assert_eq!(
        recorder.seen,
        vec![
            counters(1, 0, 0),
            counters(2, 0, 0),
            counters(2, 1, 0),
            counters(2, 1, 1),
            counters(2, 2, 1),
        ]
    );
    let mut before = counters(0, 0, 0);
    for after in &recorder.seen {
        assert!(before.count <= after.count);
        assert!(before.raster_progress <= after.raster_progress);
        assert!(before.sequence_progress <= after.sequence_progress);
        let sum = |p: &CastRenderProgress| p.count + p.raster_progress + p.sequence_progress;
        assert_eq!(sum(after), sum(&before) + 1);
        before = *after;
    }
}

#[test]
fn handler_is_shown_one_step_at_a_time() {
    let cmds = vec![
        ProgressCmd::IncrementCount,
        ProgressCmd::IncrementCount,
        ProgressCmd::IncrementRasterProgress,
        ProgressCmd::IncrementSequenceProgress,
    ];
    let mut recorder = Recorder { seen: Vec::new() };
    let shown = progress_thread(&cmds, &mut recorder);
    let expected =
        vec![counters(1, 0, 0), counters(2, 0, 0), counters(2, 1, 0), counters(2, 1, 1)];
    assert_eq!(shown, expected);
    assert_eq!(recorder.seen, expected);
}

#[test]
fn no_commands_leave_the_counters_at_zero() {
    let mut handler = NullProgressHandler;
    assert!(progress_thread(&Vec::new(), &mut handler).is_empty());
    let mut recorder = Recorder { seen: Vec::new() };
    assert!(progress_thread(&Vec::new(), &mut recorder).is_empty());
    assert!(recorder.seen.is_empty());
}
