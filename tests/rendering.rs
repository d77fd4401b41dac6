use rlog::{render_template, Logger, Stamp, DEFAULT_FORMAT};

fn stamp() -> Stamp {
    Stamp { year: 2018, month: 8, day: 10, hour: 9, minute: 6, second: 33 }
}

#[test]
fn two_messages_in_call_order() {
    let log = Logger::new("out.log", "$date $time $msg");
    let first = log.render_at(&stamp(), "hello").unwrap();
    let second = log.render_at(&stamp(), "world").unwrap();
    assert_eq!(first, "10-08-2018 Fri 09:06.33 hello\n");
    assert_eq!(second, "10-08-2018 Fri 09:06.33 world\n");
    let file = first + &second;
    assert_eq!(file, "10-08-2018 Fri 09:06.33 hello\n10-08-2018 Fri 09:06.33 world\n");
    assert_eq!(file.lines().count(), 2);
}

#[test]
fn tokens_keep_template_order() {
    let log = Logger::new("order.log", "$msg $date");
    assert_eq!(log.render_at(&stamp(), "first").unwrap(), "first 10-08-2018 Fri\n");
    let log = Logger::new("order.log", "$timeshort $date $msg");
    assert_eq!(log.render_at(&stamp(), "m").unwrap(), "09:06 10-08-2018 Fri m\n");
}

#[test]
fn repeated_tokens_share_one_moment() {
    let log = Logger::new("repeat.log", "$time|$time|$msg|$msg");
    assert_eq!(log.render_at(&stamp(), "x").unwrap(), "09:06.33|09:06.33|x|x\n");
}

#[test]
fn timeshort_is_not_time_then_short() {
    let log = Logger::new("short.log", "$timeshort");
    assert_eq!(log.render_at(&stamp(), "").unwrap(), "09:06\n");
    assert_eq!(render_template("$timeshort", "D", "T", "S", "M"), "S");
    assert_eq!(render_template("$time short", "D", "T", "S", "M"), "T short");
}

#[test]
fn unknown_tokens_pass_through() {
    assert_eq!(render_template("$foo $ $dat $msg", "D", "T", "S", "M"), "$foo $ $dat M");
    assert_eq!(render_template("$$msg", "D", "T", "S", "M"), "$M");
}

#[test]
fn message_is_not_expanded_again() {
    let log = Logger::new("verbatim.log", "$msg");
    assert_eq!(log.render_at(&stamp(), "$date $time").unwrap(), "$date $time\n");
}

#[test]
fn template_without_tokens_is_copied() {
    assert_eq!(render_template("plain text", "D", "T", "S", "M"), "plain text");
    assert_eq!(render_template("", "D", "T", "S", "M"), "");
    let log = Logger::new("plain.log", "no tokens");
    assert_eq!(log.render_at(&stamp(), "m").unwrap(), "no tokens\n");
}

#[test]
fn empty_format_gives_default() {
    let log = Logger::new("default.log", "");
    assert_eq!(log.get_fmt(), "$date $time $msg");
    assert_eq!(log.get_fmt(), DEFAULT_FORMAT);
    assert_eq!(log.render_at(&stamp(), "m").unwrap(), "10-08-2018 Fri 09:06.33 m\n");
}

#[test]
fn rendering_twice_is_identical() {
    let log = Logger::new("twice.log", "$date $time $timeshort $msg");
    let a = log.render_at(&stamp(), "same").unwrap();
    let b = log.render_at(&stamp(), "same").unwrap();
    assert_eq!(a, b);
    assert_eq!(a, "10-08-2018 Fri 09:06.33 09:06 same\n");
}

#[test]
fn each_line_ends_in_one_break() {
    let log = Logger::new("lines.log", "$date $msg");
    let line = log.render_at(&stamp(), "one").unwrap();
    assert!(line.ends_with('\n'));
    assert_eq!(line.matches('\n').count(), 1);
}

#[test]
fn impossible_dates_give_none() {
    let log = Logger::new("bad.log", "$msg");
    let feb30 = Stamp { year: 2018, month: 2, day: 30, hour: 0, minute: 0, second: 0 };
    assert_eq!(log.render_at(&feb30, "m"), None);
    let hour24 = Stamp { year: 2018, month: 2, day: 3, hour: 24, minute: 0, second: 0 };
    assert_eq!(log.render_at(&hour24, "m"), None);
}

#[test]
fn padding_and_weekday() {
    let log = Logger::new("pad.log", "$date $time");
    let s = Stamp { year: 2024, month: 2, day: 29, hour: 0, minute: 0, second: 5 };
    assert_eq!(log.render_at(&s, "").unwrap(), "29-02-2024 Thu 00:00.05\n");
}

#[test]
fn current_time_line() {
    let log = Logger::new("now.log", "$timeshort [$msg]");
    let line = log.parse_format("now").unwrap();
    assert!(line.ends_with(" [now]\n"));
    assert_eq!(line.len(), "hh:mm [now]\n".len());
}

#[test]
fn setters_replace_fields() {
    let mut log = Logger::new("a.log", "$msg");
    log.fmt("$date");
    log.path("b.log");
    assert_eq!(log.get_fmt(), "$date");
    assert_eq!(log.get_path(), "b.log");
    log.fmt("");
    assert_eq!(log.get_fmt(), "");
}

#[test]
fn clock_readings_in_range_give_a_line() {
    let log = Logger::new("secs.log", "[$msg]");
    assert_eq!(log.line_for_seconds(0, "$date $time $timeshort $msg").unwrap(), "[$date $time $timeshort $msg]\n");
    let log = Logger::new("secs.log", "cost $5 $foo $dat $msg");
    assert_eq!(log.line_for_seconds(1533891993, "m").unwrap(), "cost $5 $foo $dat m\n");
    assert!(log.line_for_seconds(rlog::LATEST_CLOCK_SECONDS, "m").is_some());
}

#[test]
fn clock_readings_past_the_bound_give_none() {
    let log = Logger::new("secs.log", "$msg");
    assert_eq!(log.line_for_seconds(rlog::LATEST_CLOCK_SECONDS + 1, "m"), None);
    assert_eq!(log.line_for_seconds(u64::MAX, "m"), None);
}

#[test]
fn clock_line_has_plain_shapes() {
    let log = Logger::new("secs.log", "$date|$time|$timeshort");
    let line = log.line_for_seconds(1533891993, "").unwrap();
    let parts: Vec<&str> = line.trim_end_matches('\n').split('|').collect();
    assert_eq!(parts.len(), 3);
    assert_eq!(parts[0].len(), 14);
    assert_eq!(&parts[0][6..10], "2018");
    assert_eq!(parts[1].len(), 8);
    assert_eq!(&parts[1][..5], parts[2]);
    assert!(!line.contains("short"));
}

#[test]
fn current_time_line_has_timeshort_shape() {
    let log = Logger::new("now.log", "$timeshort");
    let line = log.parse_format("ignored").unwrap();
    assert_eq!(line.len(), 6);
    assert_eq!(&line[2..3], ":");
    assert!(!line.contains("short"));
}
