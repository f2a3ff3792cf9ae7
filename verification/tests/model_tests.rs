use timeblock::models::available_intervals;
use timeblock::models::minutes_to_time_string;
use timeblock::models::time_string_to_minutes;
use timeblock::models::TimeBlock;
use timeblock::models::TimeInterval;

fn block(start_minutes: i32, duration_minutes: i32) -> TimeBlock {
    TimeBlock {
        id: Some(1),
        date: "2024-03-01".to_string(),
        start_minutes,
        duration_minutes,
        title: "focus".to_string(),
        notes_file: None,
        color: "#3b82f6".to_string(),
        tags: vec![],
        created_at: None,
        updated_at: None,
    }
}

#[test]
fn start_and_end_formatting() {
    let b = block(450, 90);
    assert_eq!(b.start_time_formatted(), "07:30");
    assert_eq!(b.end_time_formatted(), "09:00");
    let midnight = block(0, 5);
    assert_eq!(midnight.start_time_formatted(), "00:00");
    assert_eq!(midnight.end_time_formatted(), "00:05");
    let late = block(1439, 1);
    assert_eq!(late.start_time_formatted(), "23:59");
    assert_eq!(late.end_time_formatted(), "24:00");
}

#[test]
fn duration_formatting() {
    assert_eq!(block(0, 45).duration_formatted(), "45m");
    assert_eq!(block(0, 60).duration_formatted(), "1h");
    assert_eq!(block(0, 90).duration_formatted(), "1h 30m");
    assert_eq!(block(0, 120).duration_formatted(), "2h");
    assert_eq!(block(0, 0).duration_formatted(), "0m");
}

#[test]
fn minutes_rendering() {
    assert_eq!(minutes_to_time_string(450), "07:30");
    assert_eq!(minutes_to_time_string(0), "00:00");
    assert_eq!(minutes_to_time_string(1439), "23:59");
}

#[test]
fn time_parsing_accepts_clock_strings() {
    assert_eq!(time_string_to_minutes("07:30"), Ok(450));
    assert_eq!(time_string_to_minutes("7:5"), Ok(425));
    assert_eq!(time_string_to_minutes("0:0"), Ok(0));
    assert_eq!(time_string_to_minutes("23:59"), Ok(1439));
    assert_eq!(time_string_to_minutes("+07:30"), Ok(450));
}

#[test]
fn time_parsing_rejects_malformed_strings() {
    assert_eq!(
        time_string_to_minutes("0730"),
        Err("Invalid time format".to_string())
    );
    assert_eq!(
        time_string_to_minutes("07:30:00"),
        Err("Invalid time format".to_string())
    );
    assert_eq!(
        time_string_to_minutes("aa:30"),
        Err("Invalid hour".to_string())
    );
    assert_eq!(
        time_string_to_minutes(":30"),
        Err("Invalid hour".to_string())
    );
    assert_eq!(
        time_string_to_minutes("07:bb"),
        Err("Invalid minute".to_string())
    );
    assert_eq!(
        time_string_to_minutes("07:"),
        Err("Invalid minute".to_string())
    );
    assert_eq!(
        time_string_to_minutes("24:00"),
        Err("Time out of range".to_string())
    );
    assert_eq!(
        time_string_to_minutes("12:60"),
        Err("Time out of range".to_string())
    );
    assert_eq!(
        time_string_to_minutes("-1:30"),
        Err("Time out of range".to_string())
    );
    assert_eq!(
        time_string_to_minutes("99999999999:00"),
        Err("Invalid hour".to_string())
    );
}

#[test]
fn interval_labels() {
    assert_eq!(TimeInterval::from_minutes(5).label, "5 min");
    assert_eq!(TimeInterval::from_minutes(30).label, "30 min");
    assert_eq!(TimeInterval::from_minutes(60).label, "1 hour");
    assert_eq!(TimeInterval::from_minutes(120).label, "2 hours");
    assert_eq!(TimeInterval::from_minutes(90).label, "1h 30m");
}

#[test]
fn interval_list_keeps_order() {
    let list = available_intervals(&vec![5, 15, 30, 60]);
    let labels: Vec<&str> = list.iter().map(|t| t.label.as_str()).collect();
    assert_eq!(labels, vec!["5 min", "15 min", "30 min", "1 hour"]);
    let minutes: Vec<i32> = list.iter().map(|t| t.minutes).collect();
    assert_eq!(minutes, vec![5, 15, 30, 60]);
}
