use clipstack::commands::{
    check_dimensions, prepare, probed, rejected, stacked, Probing, Rejection, Status,
};
use clipstack::{ExecuteError, Execution, Position, Probed, Slider, Source, Stack};

fn placed(id: &str, x: u8, y: u8) -> Position {
    Position { id: String::from(id), x, y }
}

fn file(id: &str, path: &str) -> Source {
    Source { id: String::from(id), path: String::from(path) }
}

fn sized(width: u16, height: u16) -> Probed {
    Probed { width, height, ..Default::default() }
}

// | 1 | 3 |
// | 2 | 4 |
fn grid_positions() -> Vec<Position> {
    vec![placed("1", 0, 0), placed("2", 0, 1), placed("3", 1, 0), placed("4", 1, 1)]
}

fn grid_sources() -> Vec<Source> {
    vec![
        file("1", "1.mov"),
        file("2", "2.mov"),
        file("3", "3.mov"),
        file("4", "4.mov"),
    ]
}

#[test]
fn grid_request_is_prepared() {
    let sliders = vec![Some(Slider { id: String::from("1"), values: [10, 30] }), None, None, None];
    let probes = vec![sized(640, 480); 4];
    let mut stacker = prepare(grid_positions(), grid_sources(), sliders, probes, "videos").unwrap();
    let mut args = stacker.assemble();
    let output = args.pop().unwrap();
    assert_eq!(output, stacker.output_path());
    assert!(output.starts_with("videos/stacked-"));
    assert!(output.ends_with(".mkv"));
    assert_eq!(
        args,
        [
            "-ss",
            "00:00:10",
            "-to",
            "00:00:30",
            "-i",
            "1.mov",
            "-i",
            "3.mov",
            "-i",
            "2.mov",
            "-i",
            "4.mov",
            "-filter_complex",
            "[0:v][1:v][2:v][3:v]xstack=inputs=4:layout='0_0|w0_0|0_h0|w0_h0'[v]",
            "-map",
            "[v]"
        ]
    );
}

#[test]
fn request_with_too_few_clips_is_rejected() {
    let none = prepare(vec![], vec![], vec![], vec![], "videos");
    assert_eq!(none.err(), Some(Rejection::TooFewClips));
    let one = prepare(
        vec![placed("1", 0, 0), placed("2", 1, 0)],
        vec![file("1", "1.mov")],
        vec![],
        vec![sized(640, 480)],
        "videos",
    );
    assert_eq!(one.err(), Some(Rejection::TooFewClips));
}

#[test]
fn column_request_needs_one_width() {
    let positions = vec![placed("1", 0, 0), placed("2", 0, 1)];
    let sources = vec![file("1", "1.mov"), file("2", "2.mov")];
    let fits = prepare(
        positions.clone(),
        sources.clone(),
        vec![],
        vec![sized(640, 480), sized(640, 360)],
        "videos",
    );
    assert!(fits.is_ok());
    let differs =
        prepare(positions, sources, vec![], vec![sized(640, 480), sized(320, 480)], "videos");
    assert_eq!(differs.err(), Some(Rejection::MismatchedWidth));
}

#[test]
fn row_request_needs_one_height() {
    let positions = vec![placed("1", 0, 0), placed("2", 1, 0)];
    let sources = vec![file("1", "1.mov"), file("2", "2.mov")];
    let fits = prepare(
        positions.clone(),
        sources.clone(),
        vec![],
        vec![sized(640, 480), sized(320, 480)],
        "videos",
    );
    assert!(fits.is_ok());
    let differs =
        prepare(positions, sources, vec![], vec![sized(640, 480), sized(640, 360)], "videos");
    assert_eq!(differs.err(), Some(Rejection::MismatchedHeight));
}

#[test]
fn grid_request_needs_one_size() {
    let mut probes = vec![sized(640, 480); 4];
    probes[2] = sized(640, 481);
    let differs = prepare(grid_positions(), grid_sources(), vec![], probes, "videos");
    assert_eq!(differs.err(), Some(Rejection::MismatchedDimensions));
}

#[test]
fn request_with_unknown_files_is_rejected() {
    let positions = vec![placed("1", 0, 0), placed("2", 0, 1)];
    let sources = vec![file("1", "1.mov"), file("2", "2.mov")];
    let probes = vec![Probed::default(), Probed::default()];
    let unknown = prepare(positions, sources, vec![], probes, "videos");
    assert_eq!(unknown.err(), Some(Rejection::MismatchedWidth));
}

#[test]
fn dimensions_are_checked_by_mode() {
    let probes = vec![sized(640, 480), sized(640, 360)];
    assert_eq!(check_dimensions(Stack::Vertical, &probes), Ok(()));
    assert_eq!(check_dimensions(Stack::Horizontal, &probes), Err(Rejection::MismatchedHeight));
    assert_eq!(check_dimensions(Stack::X, &probes), Err(Rejection::MismatchedDimensions));
    let equal = vec![sized(640, 480), sized(640, 480)];
    assert_eq!(check_dimensions(Stack::Vertical, &equal), Ok(()));
    assert_eq!(check_dimensions(Stack::Horizontal, &equal), Ok(()));
    assert_eq!(check_dimensions(Stack::X, &equal), Ok(()));
    let wider = vec![sized(640, 480), sized(641, 480)];
    assert_eq!(check_dimensions(Stack::Vertical, &wider), Err(Rejection::MismatchedWidth));
    assert_eq!(check_dimensions(Stack::X, &wider), Err(Rejection::MismatchedDimensions));
}

#[test]
fn rejections_are_told_apart() {
    assert_eq!(
        Rejection::TooFewClips.message(),
        "Nothing to stack: fewer than two clips have a source"
    );
    assert_eq!(
        Rejection::MismatchedWidth.message(),
        "Unable to process vertical stack with mismatched width"
    );
    assert_eq!(
        Rejection::MismatchedHeight.message(),
        "Unable to process horizontal stack with mismatched height"
    );
    assert_eq!(
        Rejection::MismatchedDimensions.message(),
        "Unable to process X stack with mismatched dimensions"
    );
    let result = rejected(Rejection::MismatchedHeight);
    assert_eq!(result.status, Status::Failed);
    assert_eq!(result.message, "Unable to process horizontal stack with mismatched height");
}

#[test]
fn composition_that_ran_is_reported() {
    let saved = stacked("videos/stacked-x.mkv", Ok(vec![]));
    assert_eq!(saved.status, Status::Success);
    assert_eq!(saved.message, "Saved stacked file to: videos/stacked-x.mkv");
    let failed = stacked("videos/stacked-x.mkv", Err(ExecuteError::Execution));
    assert_eq!(failed.status, Status::Failed);
    assert_eq!(failed.message, "Stacking failed: Execution");
    let unspawned = stacked("videos/stacked-x.mkv", Err(ExecuteError::Spawn));
    assert_eq!(unspawned.message, "Stacking failed: Spawn");
}

#[test]
fn probe_is_reported() {
    let found = Probed { filename: String::from("a.mov"), duration: 12, height: 480, width: 640 };
    let read = probed(Probing::Read(found));
    assert_eq!(read.status, Status::Success);
    assert_eq!(read.message, "Succesful probe");
    assert_eq!(read.probed.filename, "a.mov");
    assert_eq!((read.probed.width, read.probed.height), (640, 480));
    assert_eq!(read.probed.duration, 12);

    let unreadable = probed(Probing::Unreadable(String::from("expected value at line 1")));
    assert_eq!(unreadable.status, Status::Failed);
    assert_eq!(unreadable.message, "Failed probing: expected value at line 1");
    assert!(unreadable.probed.is_unknown());

    let not_run = probed(Probing::NotRun(ExecuteError::OutputWait));
    assert_eq!(not_run.status, Status::Failed);
    assert_eq!(not_run.message, "Failed executing FFprobe: OutputWait");
    assert!(not_run.probed.is_unknown());
}
