use effitask::date::Date;
use effitask::filter::has_context;
use effitask::filter::has_project;
use effitask::filter::has_tag;
use effitask::filter::is_flagged;
use effitask::filter::is_visible_by_defer;
use effitask::filter::is_visible_by_status;
use effitask::filter::matches_query;
use effitask::list::List;
use effitask::markup::Markup;
use effitask::markup::render_note_events;
use effitask::markup::NoteEvent;
use effitask::markup::TagKind;
use effitask::page::Page;
use effitask::task::Note;
use effitask::task::Task;

fn lines(ls: &[&str]) -> Vec<String> {
    ls.iter().map(|l| l.to_string()).collect()
}

#[test]
fn load_two_sources_end_to_end() {
    let active = lines(&[
        "(A) 2024-01-01 Buy milk +Home",
        "x 2024-01-02 2024-01-01 Call mom @Phone",
    ]);
    let archive = lines(&[]);
    let list = List::from_lines(&active, &archive);
    assert_eq!(list.tasks.len(), 2);
    assert_eq!(list.tasks[0].id, 0);
    assert_eq!(list.tasks[1].id, 1);
    assert_eq!(list.tasks[0].priority, Some(0));
    assert!(has_project(&list.tasks[0], "Home"));
    assert_eq!(list.tasks[0].finished, false);
    assert!(list.tasks[1].finished);
    assert!(has_context(&list.tasks[1], "Phone"));
    let visible: Vec<usize> = list
        .tasks
        .iter()
        .filter(|t| is_visible_by_status(t, false))
        .map(|t| t.id)
        .collect();
    assert_eq!(visible, vec![0]);
}

#[test]
fn toggle_generates_recurring_successor() {
    let active = lines(&["(A) Pay rent rec:+1m due:2024-01-31"]);
    let list_today = Date { year: 2024, month: 2, day: 15 };
    let mut list = List::from_lines(&active, &lines(&[]));
    let found = list.toggle(0, list_today);
    assert!(found);
    assert!(list.tasks[0].finished);
    assert_eq!(list.tasks[0].completion_date, Some(list_today));
    assert_eq!(list.tasks.len(), 2);
    let successor = &list.tasks[1];
    assert_eq!(successor.finished, false);
    assert!(successor.completion_date.is_none());
    assert_eq!(successor.creation_date, Some(list_today));
    assert_eq!(
        successor.due_date,
        Some(Date { year: 2024, month: 2, day: 29 })
    );
    assert_eq!(successor.id, 1);
}

#[test]
fn toggle_keeps_threshold_offset() {
    let active = lines(&["water due:2024-03-10 t:2024-03-05 rec:+1w"]);
    let today = Date { year: 2024, month: 3, day: 9 };
    let mut list = List::from_lines(&active, &lines(&[]));
    assert!(list.toggle(0, today));
    let successor = &list.tasks[1];
    assert_eq!(successor.due_date, Some(Date { year: 2024, month: 3, day: 17 }));
    assert_eq!(
        successor.threshold_date,
        Some(Date { year: 2024, month: 3, day: 12 })
    );
}

#[test]
fn toggle_on_finished_task_uncompletes() {
    let active = lines(&["x 2024-01-02 2024-01-01 done thing"]);
    let today = Date { year: 2024, month: 2, day: 1 };
    let mut list = List::from_lines(&active, &lines(&[]));
    assert!(list.toggle(0, today));
    assert_eq!(list.tasks[0].finished, false);
    assert!(list.tasks[0].completion_date.is_none());
    assert_eq!(list.tasks.len(), 1);
}

#[test]
fn stale_id_is_not_found() {
    let today = Date { year: 2024, month: 2, day: 1 };
    let mut list = List::from_lines(&lines(&["a"]), &lines(&[]));
    assert_eq!(list.toggle(5, today), false);
    assert_eq!(list.replace(5, Task::new()), false);
    assert_eq!(list.tasks.len(), 1);
}

#[test]
fn replace_keeps_slot() {
    let mut list = List::from_lines(&lines(&["a", "b"]), &lines(&[]));
    let mut edited = Task::parse("b edited");
    edited.id = 7;
    assert!(list.replace(1, edited));
    assert_eq!(list.tasks[1].subject, "b edited");
    assert_eq!(list.tasks[1].id, 1);
}

#[test]
fn partition_splits_by_done_mark() {
    let list = List::from_lines(
        &lines(&["a", "x 2024-01-02 2024-01-01 b", "c"]),
        &lines(&["x d"]),
    );
    let (active, archive) = list.partition();
    assert_eq!(active, vec!["a".to_string(), "c".to_string()]);
    assert_eq!(
        archive,
        vec!["x 2024-01-02 2024-01-01 b".to_string(), "x d".to_string()]
    );
}

#[test]
fn filters_match_fields() {
    let t = Task::parse("! 2024-01-01 ship crate +Work @desk kind:chore");
    assert!(is_flagged(&t));
    assert!(has_project(&t, "Work"));
    assert!(!has_project(&t, "Home"));
    assert!(has_context(&t, "desk"));
    assert!(!has_context(&t, "Phone"));
    assert!(has_tag(&t, "kind"));
    assert!(!has_tag(&t, "due"));
}

#[test]
fn status_and_defer_filters() {
    let today = Date { year: 2024, month: 6, day: 1 };
    let tomorrow_line = "hidden t:2024-06-02";
    let t = Task::parse(tomorrow_line);
    assert_eq!(is_visible_by_defer(&t, false, today), false);
    assert!(is_visible_by_defer(&t, true, today));
    let due_today = Task::parse("shown t:2024-06-01");
    assert!(is_visible_by_defer(&due_today, false, today));
    let mut done = Task::parse("x a");
    assert_eq!(is_visible_by_status(&done, false), false);
    assert!(is_visible_by_status(&done, true));
    done.uncomplete();
    assert!(is_visible_by_status(&done, false));
}

#[test]
fn query_matches_case_insensitively() {
    let t = Task::parse("Hello World");
    assert!(matches_query(&t, ""));
    assert!(matches_query(&t, "WORLD"));
    assert!(matches_query(&t, "o w"));
    assert!(!matches_query(&t, "mars"));
}

#[test]
fn url_highlight_keeps_link_unbroken() {
    let mut task = Task::new();
    task.subject = "Check https://a.com/x+y +Proj now".to_string();
    assert_eq!(
        task.markup_subject(),
        "Check <a href=\"https://a.com/x+y\">https://a.com/x+y</a> <b>+Proj</b> now"
    );
}

#[test]
fn escape_covers_markup_characters() {
    assert_eq!(Task::markup_escape("a<b>&'\""), "a&lt;b&gt;&amp;&apos;&quot;");
}

#[test]
fn note_markup_renders_markdown() {
    let note = Note {
        content: Some("# Title\n\nHello *world* & co".to_string()),
    };
    assert_eq!(
        note.markup(),
        Some(
            "<markup><span font_size='x-large'><u>Title</u></span>\n\n<span>Hello <i>world</i> &amp; co</span>\n</markup>"
                .to_string()
        )
    );
    let empty = Note { content: None };
    assert_eq!(empty.markup(), None);
}

#[test]
fn note_markup_renders_lists_and_links() {
    let note = Note {
        content: Some("- a\n- [here](http://x 'ttl')\n".to_string()),
    };
    assert_eq!(
        note.markup(),
        Some(
            "<markup>\u{2022} a\n\u{2022} <a href='http://x' title='ttl'>here</a>\n</markup>"
                .to_string()
        )
    );
}

#[test]
fn render_events_is_exact_on_given_events() {
    let evs = vec![
        NoteEvent::Start(TagKind::Strong),
        NoteEvent::Text("a&b".to_string()),
        NoteEvent::End(TagKind::Strong),
        NoteEvent::SoftBreak,
        NoteEvent::Start(TagKind::CodeBlock),
        NoteEvent::Text("code".to_string()),
        NoteEvent::End(TagKind::CodeBlock),
    ];
    assert_eq!(
        render_note_events(&evs),
        "<markup><b>a&amp;b</b>\n<tt>code</tt></markup>"
    );
}

#[test]
fn page_table_is_a_bijection() {
    let pages = [
        Page::Inbox,
        Page::Projects,
        Page::Contexts,
        Page::Tags,
        Page::Agenda,
        Page::Flag,
        Page::Done,
        Page::Search,
    ];
    for (i, p) in pages.iter().enumerate() {
        assert_eq!(p.index(), i as u32);
        assert_eq!(Page::of_index(i as u32), *p);
    }
    assert_eq!(pages[0].title(), "inbox");
    assert_eq!(pages[7].title(), "search");
}

#[test]
fn view_composes_the_three_gates() {
    let today = Date { year: 2024, month: 6, day: 1 };
    let list = List::from_lines(
        &lines(&[
            "call Alice",
            "x 2024-05-01 call Bob",
            "call Carol t:2024-06-09",
            "mail Dave",
        ]),
        &lines(&[]),
    );
    let shown = effitask::filter::view_tasks(&list, false, false, today, "call");
    let subjects: Vec<&str> = shown.iter().map(|t| t.subject.as_str()).collect();
    assert_eq!(subjects, vec!["call Alice"]);
    let all = effitask::filter::view_tasks(&list, true, true, today, "");
    assert_eq!(all.len(), 4);
}

#[test]
fn agenda_orders_by_due_date_with_undated_last() {
    let list = List::from_lines(
        &lines(&[
            "c due:2024-03-01",
            "no date one",
            "a due:2024-01-15",
            "no date two",
            "b due:2024-01-15",
        ]),
        &lines(&[]),
    );
    let ordered = effitask::filter::agenda_order(&list.tasks);
    let subjects: Vec<&str> = ordered.iter().map(|t| t.subject.as_str()).collect();
    assert_eq!(
        subjects,
        vec!["a", "b", "c", "no date one", "no date two"]
    );
}

#[test]
fn empty_query_shows_default_page() {
    assert_eq!(effitask::page::search_page(""), (false, Page::Inbox));
    assert_eq!(effitask::page::search_page("milk"), (true, Page::Search));
}
