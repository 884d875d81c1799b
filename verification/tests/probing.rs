use clipstack::{Execution, Handle, Probe, Probed, ProbedDimensions};

fn probed(width: u16, height: u16) -> Probed {
    Probed { width, height, ..Default::default() }
}

#[test]
fn probing_it_assembles() {
    let mut probe = Probe::new("videos/1.mov");
    let result: Vec<String> = probe.assemble();

    assert_eq!(
        result,
        [
            "-v",
            "quiet",
            "-print_format",
            "json",
            "-show_format",
            "-show_streams",
            "-select_streams",
            "v:0",
            "videos/1.mov"
        ]
    )
}

#[test]
fn probe_runs_ffprobe_and_reads_standard_output() {
    assert_eq!(Probe::new("a.mov").program(), "ffprobe");
    assert_eq!(<Probe as Execution>::HANDLE, Handle::Out);
}

#[test]
fn it_is_same_dimensions() {
    let probed: Vec<Probed> = (1..3)
        .map(|_| Probed {
            height: 420,
            width: 690,
            ..Default::default()
        })
        .collect();

    assert!(probed.is_same_width());
    assert!(probed.is_same_height());
    assert!(probed.is_same_dimensions());
}

#[test]
fn it_is_diff_dimensions() {
    let probed = vec![
        Probed {
            height: 50,
            width: 75,
            ..Default::default()
        },
        Probed {
            height: 51,
            width: 76,
            ..Default::default()
        },
    ];

    assert!(!probed.is_same_width());
    assert!(!probed.is_same_height());
    assert!(!probed.is_same_dimensions());
}

#[test]
fn fewer_than_two_files_always_fit() {
    let none: Vec<Probed> = vec![];
    assert!(none.is_same_width() && none.is_same_height() && none.is_same_dimensions());
    let one = vec![probed(640, 480)];
    assert!(one.is_same_width() && one.is_same_height() && one.is_same_dimensions());
    let unknown = vec![Probed::default()];
    assert!(unknown.is_same_width() && unknown.is_same_height() && unknown.is_same_dimensions());
}

#[test]
fn one_dimension_may_differ() {
    let same_width = vec![probed(640, 480), probed(640, 360)];
    assert!(same_width.is_same_width());
    assert!(!same_width.is_same_height());
    assert!(!same_width.is_same_dimensions());
    let same_height = vec![probed(640, 480), probed(320, 480)];
    assert!(!same_height.is_same_width());
    assert!(same_height.is_same_height());
    assert!(!same_height.is_same_dimensions());
}

#[test]
fn any_file_may_be_the_odd_one() {
    let last = vec![probed(640, 480), probed(640, 480), probed(641, 480)];
    assert!(!last.is_same_width());
    assert!(last.is_same_height());
    let first = vec![probed(640, 481), probed(640, 480), probed(640, 480)];
    assert!(first.is_same_width());
    assert!(!first.is_same_height());
}

#[test]
fn unknown_files_never_match() {
    let both = vec![Probed::default(), Probed::default()];
    assert!(!both.is_same_width());
    assert!(!both.is_same_height());
    assert!(!both.is_same_dimensions());
    let one = vec![probed(640, 480), Probed::default(), probed(640, 480)];
    assert!(!one.is_same_width());
    assert!(!one.is_same_height());
    assert!(!one.is_same_dimensions());
}

#[test]
fn default_record_is_unknown() {
    assert!(Probed::default().is_unknown());
    assert!(!probed(1, 0).is_unknown());
    assert!(!probed(0, 1).is_unknown());
    assert!(!Probed { filename: String::from("a.mov"), ..Default::default() }.is_unknown());
    assert!(!Probed { duration: 1, ..Default::default() }.is_unknown());
}
