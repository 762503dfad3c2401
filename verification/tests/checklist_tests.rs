use checklist::commands::Command;
use checklist::commands::add;
use checklist::commands::check;
use checklist::commands::parse_command;
use checklist::commands::remove;
use checklist::commands::uncheck;
use checklist::config::Config;
use checklist::date::Date;
use checklist::date::add_days;
use checklist::date::date_before;
use checklist::date::parse_date;
use checklist::errors::ChecklistError;
use checklist::record::TaskRecord;
use checklist::store::load;
use checklist::table::list;

fn args(xs: &[&str]) -> Vec<String> {
    xs.iter().map(|s| s.to_string()).collect()
}

fn date(y: u32, m: u32, d: u32) -> Date {
    Date { year: y, month: m, day: d }
}

#[test]
fn record_roundtrip() {
    let r = TaskRecord::new("gym".to_string(), date(2024, 1, 1), 3).unwrap();
    let line = r.encode();
    assert_eq!(line, "gym,2024-01-01,3");
    let back = TaskRecord::decode(&line).unwrap();
    assert_eq!(back, r);
}

#[test]
fn record_roundtrip_once_and_empty_name() {
    let r = TaskRecord::new(String::new(), date(0, 2, 29), 0).unwrap();
    let line = r.encode();
    assert_eq!(line, ",0000-02-29,0");
    let back = TaskRecord::decode(&line).unwrap();
    assert_eq!(back, r);
}

#[test]
fn record_rejects_separator_in_name() {
    assert_eq!(
        TaskRecord::new("a,b".to_string(), date(2024, 1, 1), 0).unwrap_err(),
        ChecklistError::MalformedRecord
    );
    assert_eq!(
        TaskRecord::new("a\nb".to_string(), date(2024, 1, 1), 0).unwrap_err(),
        ChecklistError::MalformedRecord
    );
}

#[test]
fn record_rejects_bad_date() {
    assert_eq!(
        TaskRecord::new("a".to_string(), date(2023, 2, 29), 1).unwrap_err(),
        ChecklistError::InvalidDate
    );
    assert_eq!(
        TaskRecord::new("a".to_string(), date(2024, 13, 1), 1).unwrap_err(),
        ChecklistError::InvalidDate
    );
}

#[test]
fn decode_field_count() {
    assert_eq!(
        TaskRecord::decode("a,2024-01-01").unwrap_err(),
        ChecklistError::MalformedRecord
    );
    assert_eq!(
        TaskRecord::decode("a,2024-01-01,3,x").unwrap_err(),
        ChecklistError::MalformedRecord
    );
    assert_eq!(TaskRecord::decode("").unwrap_err(), ChecklistError::MalformedRecord);
}

#[test]
fn decode_date_errors() {
    assert_eq!(
        TaskRecord::decode("a,2024-1-01,3").unwrap_err(),
        ChecklistError::InvalidDate
    );
    assert_eq!(
        TaskRecord::decode("a,2024-02-30,3").unwrap_err(),
        ChecklistError::InvalidDate
    );
    assert_eq!(
        TaskRecord::decode("a,not-a-date,3").unwrap_err(),
        ChecklistError::InvalidDate
    );
}

#[test]
fn decode_interval_errors() {
    assert_eq!(
        TaskRecord::decode("a,2024-01-01,").unwrap_err(),
        ChecklistError::InvalidInterval
    );
    assert_eq!(
        TaskRecord::decode("a,2024-01-01,x7").unwrap_err(),
        ChecklistError::InvalidInterval
    );
    assert_eq!(
        TaskRecord::decode("a,2024-01-01,99999999999").unwrap_err(),
        ChecklistError::InvalidInterval
    );
    assert_eq!(
        TaskRecord::decode("a,2024-01-01,-1").unwrap_err(),
        ChecklistError::InvalidInterval
    );
}

#[test]
fn decode_accepts_leading_zeros_in_interval() {
    let r = TaskRecord::decode("a,2024-01-01,007").unwrap();
    assert_eq!(r.interval(), 7);
}

#[test]
fn parse_date_shape() {
    assert_eq!(parse_date("2024-01-31"), Some(date(2024, 1, 31)));
    assert_eq!(parse_date("2024-02-29"), Some(date(2024, 2, 29)));
    assert_eq!(parse_date("1900-02-29"), None);
    assert_eq!(parse_date("2000-02-29"), Some(date(2000, 2, 29)));
    assert_eq!(parse_date("2024-00-10"), None);
    assert_eq!(parse_date("2024-04-31"), None);
    assert_eq!(parse_date("24-01-01"), None);
    assert_eq!(parse_date("2024/01/01"), None);
}

#[test]
fn add_days_walks_the_calendar() {
    assert_eq!(add_days(&date(2024, 1, 1), 7), Some(date(2024, 1, 8)));
    assert_eq!(add_days(&date(2024, 2, 28), 1), Some(date(2024, 2, 29)));
    assert_eq!(add_days(&date(2023, 2, 28), 1), Some(date(2023, 3, 1)));
    assert_eq!(add_days(&date(2023, 12, 31), 1), Some(date(2024, 1, 1)));
    assert_eq!(add_days(&date(9999, 12, 31), 0), Some(date(9999, 12, 31)));
    assert_eq!(add_days(&date(9999, 12, 31), 1), None);
}

#[test]
fn date_order() {
    assert!(date_before(&date(2023, 12, 31), &date(2024, 1, 1)));
    assert!(!date_before(&date(2024, 1, 1), &date(2024, 1, 1)));
    assert!(date_before(&date(2024, 1, 1), &date(2024, 1, 2)));
}

#[test]
fn parse_command_words() {
    assert_eq!(parse_command("add"), Ok(Command::Add));
    assert_eq!(parse_command("remove"), Ok(Command::Remove));
    assert_eq!(parse_command("list"), Ok(Command::List));
    assert_eq!(parse_command("check"), Ok(Command::Check));
    assert_eq!(parse_command("uncheck"), Ok(Command::Uncheck));
    assert_eq!(parse_command("drop"), Err(ChecklistError::InvalidCommand));
    assert_eq!(parse_command(""), Err(ChecklistError::InvalidCommand));
}

#[test]
fn add_prepends_record() {
    let c1 = add("", &args(&["gym", "2024-01-01", "3"])).unwrap();
    assert_eq!(c1, "gym,2024-01-01,3\n");
    let c2 = add(&c1, &args(&["run", "2024-02-01", "once"])).unwrap();
    assert_eq!(c2, "run,2024-02-01,0\ngym,2024-01-01,3\n");
}

#[test]
fn add_defaults_to_one_off() {
    let c = add("", &args(&["tidy", "2024-03-05"])).unwrap();
    assert_eq!(c, "tidy,2024-03-05,0\n");
}

#[test]
fn add_duplicate_fails() {
    let c1 = add("", &args(&["gym", "2024-01-01", "3"])).unwrap();
    assert_eq!(
        add(&c1, &args(&["gym", "2025-05-05", "9"])).unwrap_err(),
        ChecklistError::DuplicateTask
    );
}

#[test]
fn add_argument_errors() {
    assert_eq!(add("", &args(&["gym"])).unwrap_err(), ChecklistError::MissingArguments);
    assert_eq!(add("", &args(&[])).unwrap_err(), ChecklistError::MissingArguments);
    assert_eq!(
        add("", &args(&["a,b", "2024-01-01"])).unwrap_err(),
        ChecklistError::MalformedRecord
    );
    assert_eq!(
        add("", &args(&["gym", "01-01-2024"])).unwrap_err(),
        ChecklistError::InvalidDate
    );
    assert_eq!(
        add("", &args(&["gym", "2024-01-01", "soon"])).unwrap_err(),
        ChecklistError::InvalidInterval
    );
}

#[test]
fn remove_deletes_matching_line() {
    let content = "a,2024-01-01,1\nb,2024-01-02,2\nc,2024-01-03,3";
    let out = remove(content, &args(&["b"])).unwrap();
    assert_eq!(out, "a,2024-01-01,1\nc,2024-01-03,3");
}

#[test]
fn remove_absent_fails() {
    assert_eq!(remove("", &args(&["gym"])).unwrap_err(), ChecklistError::TaskNotFound);
    let content = "a,2024-01-01,1\n";
    assert_eq!(
        remove(content, &args(&["b"])).unwrap_err(),
        ChecklistError::TaskNotFound
    );
    assert_eq!(remove(content, &args(&[])).unwrap_err(), ChecklistError::MissingArguments);
}

#[test]
fn remove_matches_whole_name_only() {
    let content = "foo2,2024-01-01,1\n";
    assert_eq!(
        remove(content, &args(&["foo"])).unwrap_err(),
        ChecklistError::TaskNotFound
    );
}

#[test]
fn check_reschedules_from_today() {
    let content = "gym,2024-01-01,7\n";
    let out = check(content, &args(&["gym"]), date(2024, 1, 10)).unwrap();
    assert_eq!(out, "gym,2024-01-17,7\n");
}

#[test]
fn check_one_off_removes() {
    let content = "gym,2024-01-01,0\nrun,2024-05-01,2";
    let out = check(content, &args(&["gym"]), date(2024, 1, 10)).unwrap();
    assert_eq!(out, "run,2024-05-01,2");
    let records = load(&out).unwrap();
    assert!(records.iter().all(|r| r.name().as_str() != "gym"));
}

#[test]
fn check_errors() {
    assert_eq!(
        check("", &args(&["gym"]), date(2024, 1, 1)).unwrap_err(),
        ChecklistError::TaskNotFound
    );
    assert_eq!(
        check("", &args(&[]), date(2024, 1, 1)).unwrap_err(),
        ChecklistError::MissingArguments
    );
    let content = "gym,2024-01-01,5\n";
    assert_eq!(
        check(content, &args(&["gym"]), date(9999, 12, 31)).unwrap_err(),
        ChecklistError::DateOverflow
    );
}

#[test]
fn list_empty_checklist() {
    let out = list("", date(2024, 1, 1)).unwrap();
    assert_eq!(out.header, "task due until interval");
    assert_eq!(out.rule, "-".repeat(4 + 9 + 8 + 2));
    assert!(out.rows.is_empty());
}

#[test]
fn list_rows_and_widths() {
    let content = "gym,2024-01-01,3\n";
    let out = list(content, date(2024, 1, 1)).unwrap();
    assert_eq!(out.header, "task due until  interval");
    assert_eq!(out.rule, "-".repeat(4 + 10 + 8 + 2));
    assert_eq!(out.rows.len(), 1);
    assert_eq!(out.rows[0].text, "gym  2024-01-01 3       ");
    assert!(!out.rows[0].overdue);
}

#[test]
fn list_renders_once_for_one_off() {
    let content = "deep clean,2024-06-01,0\n";
    let out = list(content, date(2024, 1, 1)).unwrap();
    assert_eq!(out.rows[0].text, "deep clean 2024-06-01 once    ");
}

#[test]
fn list_overdue_is_strictly_before_today() {
    let content = "old,2023-12-31,1\ntoday,2024-01-01,1\nlater,2024-01-02,1";
    let out = list(content, date(2024, 1, 1)).unwrap();
    assert!(out.rows[0].overdue);
    assert!(!out.rows[1].overdue);
    assert!(!out.rows[2].overdue);
}

#[test]
fn malformed_line_blocks_every_command() {
    let content = "a,2024-01-01\n";
    assert_eq!(
        list(content, date(2024, 1, 1)).unwrap_err(),
        ChecklistError::MalformedRecord
    );
    assert_eq!(
        add(content, &args(&["b", "2024-01-01"])).unwrap_err(),
        ChecklistError::MalformedRecord
    );
    assert_eq!(
        remove(content, &args(&["a"])).unwrap_err(),
        ChecklistError::MalformedRecord
    );
    assert_eq!(
        check(content, &args(&["a"]), date(2024, 1, 1)).unwrap_err(),
        ChecklistError::MalformedRecord
    );
}

#[test]
fn load_skips_empty_lines_only() {
    let records = load("a,2024-01-01,1\n\nb,2024-01-02,2\n").unwrap();
    assert_eq!(records.len(), 2);
    assert_eq!(records[0].name().as_str(), "a");
    assert_eq!(records[1].name().as_str(), "b");
}

#[test]
fn uncheck_validates_arguments_only() {
    assert_eq!(uncheck(&args(&[])).unwrap_err(), ChecklistError::MissingArguments);
    assert!(uncheck(&args(&["gym"])).is_ok());
}

#[test]
fn full_scenario() {
    let c1 = add("", &args(&["gym", "2024-01-01", "3"])).unwrap();
    assert_eq!(c1, "gym,2024-01-01,3\n");
    let table = list(&c1, date(2024, 1, 1)).unwrap();
    assert_eq!(table.header, "task due until  interval");
    assert_eq!(table.rows.len(), 1);
    assert_eq!(table.rows[0].text, "gym  2024-01-01 3       ");
    let c2 = check(&c1, &args(&["gym"]), date(2024, 1, 1)).unwrap();
    assert_eq!(c2, "gym,2024-01-04,3\n");
}

#[test]
fn error_messages_are_stable() {
    assert_eq!(ChecklistError::MissingArguments.message(), "not enough parameters");
    assert_eq!(ChecklistError::InvalidCommand.message(), "invalid command");
    assert_eq!(
        ChecklistError::DateOverflow.message(),
        "could not calculate new due date"
    );
}

#[test]
fn config_carries_path_and_args() {
    let cfg = Config::build("/tmp/checklist".to_string(), args(&["gym", "2024-01-01"]));
    assert_eq!(cfg.file_path().as_str(), "/tmp/checklist");
    assert_eq!(cfg.args().len(), 2);
    assert_eq!(cfg.args()[0], "gym");
}

#[test]
fn current_date_is_a_real_date() {
    if let Some(d) = checklist::clock::current_date() {
        assert!(1 <= d.month && d.month <= 12);
        assert!(1 <= d.day && d.day <= 31);
    }
}
