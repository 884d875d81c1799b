use clipstack::{Duration, Primed};

#[test]
fn it_creates_as_ts() {
    let primed = Primed {
        start: Some(2341),
        end: Some(4123),
        ..Default::default()
    };

    assert_eq!(primed.start.unwrap().as_ts(), "00:39:01");
    assert_eq!(primed.end.unwrap().as_ts(), "01:08:43");
}

#[test]
fn timestamp_of_zero() {
    assert_eq!(0u32.as_ts(), "00:00:00");
}

#[test]
fn timestamp_pads_each_part() {
    assert_eq!(9u32.as_ts(), "00:00:09");
    assert_eq!(59u32.as_ts(), "00:00:59");
    assert_eq!(60u32.as_ts(), "00:01:00");
    assert_eq!(3599u32.as_ts(), "00:59:59");
    assert_eq!(3600u32.as_ts(), "01:00:00");
    assert_eq!(86399u32.as_ts(), "23:59:59");
}

#[test]
fn timestamp_hours_do_not_wrap() {
    assert_eq!(360000u32.as_ts(), "100:00:00");
    assert_eq!(u32::MAX.as_ts(), "1193046:28:15");
}

#[test]
fn default_record_is_empty() {
    let primed = Primed::default();
    assert_eq!(primed.id, "");
    assert_eq!(primed.path, "");
    assert_eq!((primed.x, primed.y), (0, 0));
    assert_eq!((primed.start, primed.end), (None, None));
}

#[test]
fn bounds_as_timestamps() {
    let primed = Primed {
        start: Some(10),
        end: Some(30),
        ..Default::default()
    };
    assert_eq!(primed.start_as_ts(), "00:00:10");
    assert_eq!(primed.end_as_ts(), "00:00:30");
}

#[test]
fn absent_bounds_are_not_set() {
    let primed = Primed::default();
    assert_eq!(primed.start_as_ts(), "Not set");
    assert_eq!(primed.end_as_ts(), "Not set");
}

#[test]
fn record_on_one_line() {
    let primed = Primed {
        id: String::from("7"),
        x: 12,
        y: 255,
        path: String::from("a.mov"),
        start: Some(2341),
        end: Some(4123),
    };
    assert_eq!(
        primed.describe(),
        "Id: 7 | x: 12, y: 255 | path: a.mov | start: 00:39:01, end: 01:08:43"
    );
    assert_eq!(
        Primed::default().describe(),
        "Id:  | x: 0, y: 0 | path:  | start: Not set, end: Not set"
    );
}
