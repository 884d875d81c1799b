use clipstack::stacking::{root, sort_records};
use clipstack::{Execution, Handle, Primed, Stack, StackIdentity, Stacker, Xstack};

// | 1.mov |
// | 2.mov |
fn vstack() -> Vec<Primed> {
    vec![
        Primed {
            x: 0,
            y: 0,
            path: String::from("1.mov"),
            ..Default::default()
        },
        Primed {
            x: 0,
            y: 1,
            path: String::from("2.mov"),
            ..Default::default()
        },
    ]
}

// | 1.mov | 2.mov |
fn hstack() -> Vec<Primed> {
    vec![
        Primed {
            x: 0,
            y: 0,
            path: String::from("1.mov"),
            ..Default::default()
        },
        Primed {
            x: 1,
            y: 0,
            path: String::from("2.mov"),
            ..Default::default()
        },
    ]
}

// | 1.mov | 3.mov |
// | 2.mov | 4.mov |
fn xstack() -> Vec<Primed> {
    vec![
        Primed {
            x: 0,
            y: 0,
            path: String::from("1.mov"),
            start: Some(10),
            end: Some(30),
            ..Default::default()
        },
        Primed {
            x: 0,
            y: 1,
            path: String::from("2.mov"),
            ..Default::default()
        },
        Primed {
            x: 1,
            y: 0,
            path: String::from("3.mov"),
            ..Default::default()
        },
        Primed {
            x: 1,
            y: 1,
            path: String::from("4.mov"),
            ..Default::default()
        },
    ]
}

fn at(x: u8, y: u8, path: &str) -> Primed {
    Primed { x, y, path: String::from(path), ..Default::default() }
}

fn paths(records: &[Primed]) -> Vec<&str> {
    records.iter().map(|r| r.path.as_str()).collect()
}

#[test]
fn it_generates_layout() {
    let result = Xstack::new(9).gen_layout();
    let expected = "0_0|w0_0|w0+w1_0|0_h0|w0_h0|w0+w1_h0|0_h0+h1|w0_h0+h1|w0+w1_h0+h1";
    assert_eq!(result, expected)
}

#[test]
fn stacking_it_generates_layout() {
    let result = Xstack::new(9).gen_layout();
    let expected = "0_0|w0_0|w0+w1_0|0_h0|w0_h0|w0+w1_h0|0_h0+h1|w0_h0+h1|w0+w1_h0+h1";
    assert_eq!(result, expected)
}

#[test]
fn it_generates_labels() {
    let result = Xstack::new(4).gen_labels();
    let expected = "[0:v][1:v][2:v][3:v]";
    assert_eq!(result, expected)
}

#[test]
fn stacking_it_generates_labels() {
    let result = Xstack::new(4).gen_labels();
    let expected = "[0:v][1:v][2:v][3:v]".to_string();
    assert_eq!(result, expected)
}

#[test]
fn it_xstack_composes() {
    let result = Xstack::new(4).compose();
    let expected = "[0:v][1:v][2:v][3:v]xstack=inputs=4:layout='0_0|w0_0|0_h0|w0_h0'[v]";
    assert_eq!(result, expected)
}

#[test]
fn it_identifies_stack() {
    assert_eq!(vstack().identify(), Stack::Vertical);
    assert_eq!(hstack().identify(), Stack::Horizontal);
    assert_eq!(xstack().identify(), Stack::X);
}

#[test]
fn stacking_it_assembles() {
    let mut stacker = Stacker::new(xstack(), "videos");
    let mut result: Vec<String> = stacker.assemble();

    // Last item (output) is created with rand suffix
    let last = result.pop();
    assert!(last.unwrap().as_str().starts_with("videos/stacked-"));

    assert_eq!(
        result,
        [
            "-ss",
            "00:00:10",
            "-to",
            "00:00:30",
            "-i",
            "1.mov",
            "-i",
            "3.mov",
            "-i",
            "2.mov",
            "-i",
            "4.mov",
            "-filter_complex",
            "[0:v][1:v][2:v][3:v]xstack=inputs=4:layout=\'0_0|w0_0|0_h0|w0_h0\'[v]",
            "-map",
            "[v]"
        ]
    );
}

#[test]
fn layout_of_four_cells() {
    assert_eq!(Xstack::new(4).gen_layout(), "0_0|w0_0|0_h0|w0_h0");
}

#[test]
fn layout_of_few_cells() {
    assert_eq!(Xstack::new(0).gen_layout(), "");
    assert_eq!(Xstack::new(0).gen_labels(), "");
    assert_eq!(Xstack::new(1).gen_layout(), "0_0");
    assert_eq!(Xstack::new(2).gen_layout(), "0_0|0_h0");
    assert_eq!(Xstack::new(3).gen_layout(), "0_0|0_h0|0_h0+h1");
    assert_eq!(Xstack::new(6).gen_layout(), "0_0|w0_0|0_h0|w0_h0|0_h0+h1|w0_h0+h1");
}

#[test]
fn labels_count_past_nine() {
    assert_eq!(
        Xstack::new(11).gen_labels(),
        "[0:v][1:v][2:v][3:v][4:v][5:v][6:v][7:v][8:v][9:v][10:v]"
    );
}

#[test]
fn offsets_sum_what_comes_before() {
    assert_eq!(Xstack::gen_offset(String::from("w"), 0), "0");
    assert_eq!(Xstack::gen_offset(String::from("w"), 1), "w0");
    assert_eq!(Xstack::gen_offset(String::from("h"), 3), "h0+h1+h2");
    assert_eq!(
        Xstack::gen_offset(String::from("w"), 12),
        "w0+w1+w2+w3+w4+w5+w6+w7+w8+w9+w10+w11"
    );
}

#[test]
fn whole_roots() {
    let expected = [0, 1, 1, 1, 2, 2, 2, 2, 2, 3, 3, 3, 3, 3, 3, 3, 4, 4];
    for (n, r) in expected.iter().enumerate() {
        assert_eq!(root(n), *r);
    }
    assert_eq!(root(99), 9);
    assert_eq!(root(100), 10);
    assert_eq!(root(usize::MAX), (1usize << (usize::BITS / 2)) - 1);
}

#[test]
fn classification_of_small_sets() {
    assert_eq!(Vec::<Primed>::new().identify(), Stack::Vertical);
    assert_eq!(vec![at(0, 0, "a")].identify(), Stack::Vertical);
    assert_eq!(vec![at(3, 0, "a")].identify(), Stack::Horizontal);
    assert_eq!(vec![at(3, 4, "a")].identify(), Stack::X);
    assert_eq!(vec![at(0, 0, "a"), at(0, 0, "b")].identify(), Stack::Vertical);
    assert_eq!(vec![at(0, 1, "a"), at(1, 0, "b")].identify(), Stack::X);
}

#[test]
fn rows_are_sorted_by_column() {
    let mut records = vec![at(2, 0, "c"), at(0, 0, "a"), at(1, 0, "b")];
    sort_records(Stack::Horizontal, &mut records);
    assert_eq!(paths(&records), ["a", "b", "c"]);
}

#[test]
fn columns_are_sorted_by_row() {
    let mut records = vec![at(0, 2, "c"), at(0, 0, "a"), at(0, 1, "b")];
    sort_records(Stack::Vertical, &mut records);
    assert_eq!(paths(&records), ["a", "b", "c"]);
}

#[test]
fn grids_are_sorted_row_by_row() {
    let mut records = vec![at(1, 1, "d"), at(0, 1, "c"), at(255, 0, "b"), at(0, 0, "a")];
    sort_records(Stack::X, &mut records);
    assert_eq!(paths(&records), ["a", "b", "c", "d"]);
}

#[test]
fn sorting_keeps_equal_keys_in_order() {
    let mut records =
        vec![at(1, 7, "b1"), at(0, 9, "a1"), at(1, 3, "b2"), at(0, 1, "a2"), at(1, 0, "b3")];
    sort_records(Stack::Horizontal, &mut records);
    assert_eq!(paths(&records), ["a1", "a2", "b1", "b2", "b3"]);
}

#[test]
fn row_is_stacked_horizontally() {
    let mut stacker = Stacker::with_file(vec![at(1, 0, "2.mov"), at(0, 0, "1.mov")], "out", "o.mkv");
    assert_eq!(
        stacker.assemble(),
        ["-i", "1.mov", "-i", "2.mov", "-filter_complex", "hstack=inputs=2", "out/o.mkv"]
    );
}

#[test]
fn column_is_stacked_vertically() {
    let mut records = vstack();
    records.reverse();
    records[0].start = Some(61);
    records[0].end = Some(3725);
    let mut stacker = Stacker::with_file(records, "out/", "o.mkv");
    assert_eq!(
        stacker.assemble(),
        [
            "-i",
            "1.mov",
            "-ss",
            "00:01:01",
            "-to",
            "01:02:05",
            "-i",
            "2.mov",
            "-filter_complex",
            "vstack=inputs=2",
            "out/o.mkv"
        ]
    );
}

#[test]
fn trim_with_one_end_is_left_out() {
    let mut records = hstack();
    records[0].start = Some(5);
    records[1].end = Some(9);
    let mut stacker = Stacker::with_file(records, "", "o.mkv");
    assert_eq!(
        stacker.assemble(),
        ["-i", "1.mov", "-i", "2.mov", "-filter_complex", "hstack=inputs=2", "o.mkv"]
    );
}

#[test]
fn assembling_twice_gives_the_same_arguments() {
    let mut stacker = Stacker::with_file(xstack(), "videos", "o.mkv");
    let first = stacker.assemble();
    let second = stacker.assemble();
    assert_eq!(first, second);
    assert_eq!(first.last().unwrap(), "videos/o.mkv");
}

#[test]
fn output_path_joins_directory_and_file() {
    assert_eq!(Stacker::with_file(vec![], "videos", "a.mkv").output_path(), "videos/a.mkv");
    assert_eq!(Stacker::with_file(vec![], "videos/", "a.mkv").output_path(), "videos/a.mkv");
    assert_eq!(Stacker::with_file(vec![], "/", "a.mkv").output_path(), "/a.mkv");
    assert_eq!(Stacker::with_file(vec![], "", "a.mkv").output_path(), "a.mkv");
}

#[test]
fn output_file_has_a_random_name() {
    let path = Stacker::new(vec![], "videos").output_path();
    let name = path.strip_prefix("videos/stacked-").unwrap();
    let suffix = name.strip_suffix(".mkv").unwrap();
    assert_eq!(suffix.chars().count(), 30);
    assert!(suffix.chars().all(|c| c.is_ascii_alphanumeric()));
}

#[test]
fn output_files_do_not_collide() {
    let first = Stacker::new(vec![], "videos").output_path();
    let second = Stacker::new(vec![], "videos").output_path();
    assert_ne!(first, second);
}

#[test]
fn stacker_runs_ffmpeg_and_reads_standard_error() {
    assert_eq!(Stacker::with_file(vec![], "", "a.mkv").program(), "ffmpeg");
    assert_eq!(<Stacker as Execution>::HANDLE, Handle::Error);
}
