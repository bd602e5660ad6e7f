use effitask::date::Date;
use effitask::recurrence::Recurrence;
use effitask::recurrence::Unit;
use effitask::recurrence::apply_recurrence;
use effitask::recurrence::parse_recurrence;
use effitask::task::Task;

fn chars(s: &str) -> Vec<char> {
    s.chars().collect()
}

#[test]
fn markup_escape() {
    let mut task = Task::new();
    task.subject = "P&T keep focus on long term +HoWE".to_string();

    assert_eq!(
        task.markup_subject(),
        "P&amp;T keep focus on long term <b>+HoWE</b>"
    );
}

#[test]
fn parse_simple_line() {
    let t = Task::parse("(A) 2024-01-01 Buy milk +Home");
    assert_eq!(t.finished, false);
    assert_eq!(t.priority, Some(0));
    assert_eq!(t.subject, "2024-01-01 Buy milk +Home");
    assert_eq!(t.projects, vec!["Home".to_string()]);
    assert!(t.creation_date.is_none());
}

#[test]
fn parse_finished_line() {
    let t = Task::parse("x 2024-01-02 2024-01-01 Call mom @Phone");
    assert!(t.finished);
    assert_eq!(
        t.completion_date,
        Some(Date { year: 2024, month: 1, day: 2 })
    );
    assert_eq!(
        t.creation_date,
        Some(Date { year: 2024, month: 1, day: 1 })
    );
    assert_eq!(t.subject, "Call mom @Phone");
    assert_eq!(t.contexts, vec!["Phone".to_string()]);
}

#[test]
fn parse_metadata_words() {
    let t = Task::parse("x 2024-01-02 2024-01-01 (B) do thing due:2024-03-01 t:2024-02-20 rec:2w +p @c k:v");
    assert_eq!(t.priority, Some(1));
    assert_eq!(t.due_date, Some(Date { year: 2024, month: 3, day: 1 }));
    assert_eq!(
        t.threshold_date,
        Some(Date { year: 2024, month: 2, day: 20 })
    );
    assert_eq!(
        t.recurrence,
        Some(Recurrence { period: 2, unit: Unit::Week, strict: false })
    );
    assert_eq!(t.subject, "do thing +p @c k:v");
    assert_eq!(t.tags.len(), 1);
    assert_eq!(t.tags[0].key, "k");
    assert_eq!(t.tags[0].value, "v");
    let line = t.serialize();
    assert_eq!(
        line,
        "x 2024-01-02 2024-01-01 (B) do thing +p @c k:v due:2024-03-01 t:2024-02-20 rec:2w"
    );
    let u = Task::parse(&line);
    assert_eq!(u.priority, t.priority);
    assert_eq!(u.due_date, t.due_date);
    assert_eq!(u.threshold_date, t.threshold_date);
    assert_eq!(u.recurrence, t.recurrence);
    assert_eq!(u.subject, t.subject);
    assert_eq!(u.projects, t.projects);
    assert_eq!(u.contexts, t.contexts);
}

#[test]
fn parse_bad_metadata_stays_in_subject() {
    let t = Task::parse("pay due:2024-13-40 rec:5x bill");
    assert!(t.due_date.is_none());
    assert!(t.recurrence.is_none());
    assert_eq!(t.subject, "pay due:2024-13-40 rec:5x bill");
}

#[test]
fn parse_malformed_line_degrades_to_subject() {
    let t = Task::parse("(a) 99-9 whatever :: ");
    assert_eq!(t.finished, false);
    assert!(t.priority.is_none());
    assert!(t.creation_date.is_none());
    assert_eq!(t.subject, "(a) 99-9 whatever ::");
}

#[test]
fn parse_flag_word() {
    let t = Task::parse("! urgent thing");
    assert!(t.flagged);
    assert_eq!(t.subject, "urgent thing");
    assert_eq!(t.serialize(), "! urgent thing");
}

#[test]
fn complete_then_uncomplete_round_trip() {
    let today = Date { year: 2024, month: 5, day: 6 };
    let mut t = Task::parse("(C) 2024-01-01 water plants +garden k:v");
    let before_subject = t.subject.clone();
    t.complete(today);
    assert!(t.finished);
    assert_eq!(t.completion_date, Some(today));
    t.complete(today);
    assert!(t.finished);
    t.uncomplete();
    assert_eq!(t.finished, false);
    assert!(t.completion_date.is_none());
    assert_eq!(t.subject, before_subject);
    assert_eq!(t.priority, Some(2));
    assert_eq!(t.projects, vec!["garden".to_string()]);
    t.uncomplete();
    assert_eq!(t.finished, false);
}

#[test]
fn recurrence_parse_shapes() {
    assert_eq!(
        parse_recurrence(&chars("1d")),
        Some(Recurrence { period: 1, unit: Unit::Day, strict: false })
    );
    assert_eq!(
        parse_recurrence(&chars("+3B")),
        Some(Recurrence { period: 3, unit: Unit::Business, strict: true })
    );
    assert_eq!(
        parse_recurrence(&chars("m")),
        Some(Recurrence { period: 1, unit: Unit::Month, strict: false })
    );
    assert_eq!(parse_recurrence(&chars("5x")), None);
    assert_eq!(parse_recurrence(&chars("")), None);
    assert_eq!(parse_recurrence(&chars("+")), None);
    assert_eq!(parse_recurrence(&chars("0d")), None);
    assert_eq!(parse_recurrence(&chars("10")), None);
}

#[test]
fn recurrence_month_clamps_leap_day() {
    let r = Recurrence { period: 1, unit: Unit::Month, strict: true };
    let due = Date { year: 2024, month: 1, day: 31 };
    assert_eq!(apply_recurrence(r, due), Date { year: 2024, month: 2, day: 29 });
    let due = Date { year: 2023, month: 1, day: 31 };
    assert_eq!(apply_recurrence(r, due), Date { year: 2023, month: 2, day: 28 });
}

#[test]
fn recurrence_business_days_skip_weekend() {
    // 2024-01-05 is a Friday; two business days later is Tuesday the 9th.
    let r = parse_recurrence(&chars("2b")).unwrap();
    let friday = Date { year: 2024, month: 1, day: 5 };
    assert_eq!(apply_recurrence(r, friday), Date { year: 2024, month: 1, day: 9 });
}

#[test]
fn recurrence_units_advance() {
    let d = Date { year: 2024, month: 2, day: 29 };
    let day = Recurrence { period: 1, unit: Unit::Day, strict: false };
    assert_eq!(apply_recurrence(day, d), Date { year: 2024, month: 3, day: 1 });
    let week = Recurrence { period: 1, unit: Unit::Week, strict: false };
    assert_eq!(apply_recurrence(week, d), Date { year: 2024, month: 3, day: 7 });
    let year = Recurrence { period: 1, unit: Unit::Year, strict: false };
    assert_eq!(apply_recurrence(year, d), Date { year: 2025, month: 2, day: 28 });
}

#[test]
fn serialize_empty_task() {
    let t = Task::new();
    assert_eq!(t.serialize(), "");
}
