use todo_table::mutate::{append_task, complete_task, new_record, new_record_now, toggle_completion};
use todo_table::query::{apply_filter, filter_by_words, filter_project, parse_op, parse_query_words, Op, QueryError};
use todo_table::record::{decode_row, encode_row, header_fields, needs_header, parse_i64, parse_u32, DecodeError, Record};
use todo_table::render::{header_lines, record_lines, render_record, render_table, table_row};
use todo_table::sort::{apply_sort, parse_sort_field, SortField, SortFieldError};
use todo_table::store::{choose_action, load_rows, Action};
use todo_table::text::{contains_text, i64_text, join_from, str_eq, u64_text};

fn rec(id: u32, project: &str, desc: &str) -> Record {
    Record {
        id,
        project: project.to_string(),
        desc: desc.to_string(),
        completed: false,
        date_added: 0,
        date_completed: None,
    }
}

fn ids(v: &[Record]) -> Vec<u32> {
    v.iter().map(|r| r.id).collect()
}

fn row(fields: &[&str]) -> Vec<String> {
    fields.iter().map(|s| s.to_string()).collect()
}

fn blank_row(desc: &str) -> String {
    format!("| {:<3} | {:<15} | {:<28} | {:<11} | {:<12} | {:<15} |", "", "", desc, "", "", "")
}

#[test]
fn appends_get_ids_in_order() {
    let mut store = Vec::new();
    for k in 0..5 {
        append_task(&mut store, "General".to_string(), format!("task {k}"), 100 + k as i64);
    }
    assert_eq!(ids(&store), vec![1, 2, 3, 4, 5]);
    assert_eq!(store[2].desc, "task 2");
    assert!(store.iter().all(|r| !r.completed && r.date_completed.is_none()));
}

#[test]
fn new_record_takes_next_id() {
    let r = new_record(7, "Home".to_string(), "x".to_string(), 42);
    assert_eq!(r.id, 8);
    assert_eq!(r.date_added, 42);
    assert!(!r.completed);
    assert_eq!(r.date_completed, None);
}

#[test]
fn append_then_render_wraps_long_description() {
    let mut store = Vec::new();
    append_task(&mut store, "Home".to_string(), "Buy milk".to_string(), 0);
    append_task(
        &mut store,
        "Work".to_string(),
        "Write a design document that is extremely long and must wrap across a narrow column width".to_string(),
        0,
    );
    assert_eq!(ids(&store), vec![1, 2]);
    let table = render_table(&store, false);
    let rule = "-".repeat(103);
    assert_eq!(table[0], rule);
    assert_eq!(
        table[1],
        format!("| {:<3} | {:<15} | {:<28} | {:<11} | {:<12} | {:<15} |", "ID", "Project", "Description", "Completed", "Date Added", "Date Completed")
    );
    assert_eq!(table[2], rule);
    assert_eq!(
        table[3],
        format!("| {:<3} | {:<15} | {:<28} | {:<11} | {:<12} | {:<15} |", "1", "Home", "Buy milk", "false", "1970-01-01", "")
    );
    assert_eq!(table[4], rule);
    assert_eq!(
        table[5],
        format!("| {:<3} | {:<15} | {:<28} | {:<11} | {:<12} | {:<15} |", "2", "Work", "Write a design document that", "false", "1970-01-01", "")
    );
    assert_eq!(table[6], blank_row("is extremely long and must"));
    assert_eq!(table[7], blank_row("wrap across a narrow column"));
    assert_eq!(table[8], blank_row("width"));
    assert_eq!(table[9], rule);
    assert_eq!(table.len(), 10);
}

#[test]
fn completed_records_hidden_unless_verbose() {
    let mut r = rec(3, "Home", "done thing");
    r.completed = true;
    r.date_completed = Some(31_536_000);
    assert!(render_record(&r, false).is_empty());
    let shown = render_record(&r, true);
    assert_eq!(shown.len(), 2);
    assert_eq!(
        shown[0],
        format!("| {:<3} | {:<15} | {:<28} | {:<11} | {:<12} | {:<15} |", "3", "Home", "done thing", "true", "1970-01-01", "1971-01-01")
    );
}

#[test]
fn record_lines_from_given_pieces() {
    let r = rec(12, "P", "ignored");
    let wrapped = vec!["a".to_string(), "b".to_string()];
    let lines = record_lines(&r, false, &wrapped, "2000-01-01", "");
    assert_eq!(lines.len(), 3);
    assert_eq!(lines[0], format!("| {:<3} | {:<15} | {:<28} | {:<11} | {:<12} | {:<15} |", "12", "P", "a", "false", "2000-01-01", ""));
    assert_eq!(lines[1], blank_row("b"));
    assert_eq!(lines[2], "-".repeat(103));
}

#[test]
fn table_row_pads_and_overflows() {
    let long = "a-very-long-project-label";
    let line = table_row("1234", long, "d", "true", "x", "y");
    assert!(line.starts_with("| 1234 | a-very-long-project-label | d "));
    assert_eq!(header_lines().len(), 3);
}

#[test]
fn toggle_twice_round_trip() {
    let mut store = vec![rec(1, "Home", "Buy milk"), rec(2, "Work", "Write")];
    toggle_completion(&mut store, 1, 500);
    assert!(store[0].completed);
    assert_eq!(store[0].date_completed, Some(500));
    assert!(!store[1].completed);
    assert_eq!(store[1].date_completed, None);
    toggle_completion(&mut store, 1, 600);
    assert!(!store[0].completed);
    assert_eq!(store[0].date_completed, None);
    assert!(!store[1].completed);
    assert_eq!(store[1].date_completed, None);
    toggle_completion(&mut store, 1, 700);
    assert_eq!(store[0].date_completed, Some(700));
}

#[test]
fn toggle_only_first_duplicate() {
    let mut store = vec![rec(4, "A", "x"), rec(4, "B", "y")];
    toggle_completion(&mut store, 4, 9);
    assert!(store[0].completed);
    assert!(!store[1].completed);
}

#[test]
fn toggle_missing_id_changes_nothing() {
    let mut store = vec![rec(1, "Home", "a"), rec(2, "Work", "b")];
    toggle_completion(&mut store, 9, 500);
    assert_eq!(ids(&store), vec![1, 2]);
    assert!(store.iter().all(|r| !r.completed && r.date_completed.is_none()));
    assert_eq!(store[0].project, "Home");
    assert_eq!(store[1].desc, "b");
}

#[test]
fn filter_case_insensitive_home() {
    let mut store = vec![rec(1, "Home", "a"), rec(2, "Work", "b")];
    assert_eq!(apply_filter(&mut store, "project ~*= home"), Ok(()));
    assert_eq!(ids(&store), vec![1]);
}

#[test]
fn filter_operators() {
    let base = vec![rec(1, "Home", "a"), rec(2, "Work", "b"), rec(3, "Homework", "c")];
    let run = |op: Op, v: &str| {
        let mut s: Vec<Record> = base.iter().map(|r| rec(r.id, &r.project, &r.desc)).collect();
        filter_project(&mut s, op, v.to_string());
        ids(&s)
    };
    assert_eq!(run(Op::Eq, "Home"), vec![1]);
    assert_eq!(run(Op::Ne, "Home"), vec![2, 3]);
    assert_eq!(run(Op::Contains, "Home"), vec![1, 3]);
    assert_eq!(run(Op::Contains, "home"), Vec::<u32>::new());
    assert_eq!(run(Op::IContains, "WORK"), vec![2, 3]);
    assert_eq!(run(Op::Eq, ""), Vec::<u32>::new());
}

#[test]
fn filter_value_with_spaces_and_default_operator() {
    let mut store = vec![rec(1, "Side Project", "a"), rec(2, "Side", "b")];
    assert_eq!(apply_filter(&mut store, "project  ==  Side   Project"), Ok(()));
    assert_eq!(ids(&store), vec![1]);
    let mut store = vec![rec(1, "", "a"), rec(2, "Side", "b")];
    assert_eq!(apply_filter(&mut store, "project"), Ok(()));
    assert_eq!(ids(&store), vec![1]);
}

#[test]
fn filter_errors_pass_through() {
    let mut store = vec![rec(1, "Home", "a"), rec(2, "Work", "b")];
    assert_eq!(apply_filter(&mut store, "desc == a"), Err(QueryError::UnknownField));
    assert_eq!(apply_filter(&mut store, "project >> Home"), Err(QueryError::UnknownOperator));
    assert_eq!(apply_filter(&mut store, "   "), Err(QueryError::UnknownField));
    assert_eq!(apply_filter(&mut store, ""), Ok(()));
    assert_eq!(ids(&store), vec![1, 2]);
}

#[test]
fn parse_op_tokens() {
    assert_eq!(parse_op("=="), Some(Op::Eq));
    assert_eq!(parse_op("!="), Some(Op::Ne));
    assert_eq!(parse_op("~="), Some(Op::Contains));
    assert_eq!(parse_op("~*="), Some(Op::IContains));
    assert_eq!(parse_op("="), None);
    assert_eq!(parse_op(""), None);
}

#[test]
fn sort_default_equals_id() {
    let make = || vec![rec(3, "b", "z"), rec(1, "a", "y"), rec(2, "c", "x")];
    let mut a = make();
    let mut b = make();
    assert_eq!(apply_sort(&mut a, ""), Ok(()));
    assert_eq!(apply_sort(&mut b, "id"), Ok(()));
    assert_eq!(ids(&a), vec![1, 2, 3]);
    assert_eq!(ids(&a), ids(&b));
}

#[test]
fn sort_by_each_field() {
    let mut v = vec![rec(1, "b", "zeta"), rec(2, "a", "alpha"), rec(3, "b", "Beta")];
    apply_sort(&mut v, "description").unwrap();
    assert_eq!(ids(&v), vec![3, 2, 1]);
    apply_sort(&mut v, "project").unwrap();
    assert_eq!(ids(&v), vec![2, 3, 1]);
    let mut w = vec![rec(1, "x", "a"), rec(2, "x", "b"), rec(3, "x", "c")];
    w[0].completed = true;
    w[0].date_completed = Some(50);
    w[2].completed = true;
    w[2].date_completed = Some(10);
    w[1].date_added = 9;
    w[2].date_added = 5;
    apply_sort(&mut w, "completed").unwrap();
    assert_eq!(ids(&w), vec![2, 1, 3]);
    apply_sort(&mut w, "date_completed").unwrap();
    assert_eq!(ids(&w), vec![2, 3, 1]);
    apply_sort(&mut w, "date_added").unwrap();
    assert_eq!(ids(&w), vec![1, 3, 2]);
}

#[test]
fn sort_is_stable_and_unknown_keeps_order() {
    let mut v = vec![rec(2, "p", "same"), rec(1, "p", "same"), rec(3, "a", "same")];
    apply_sort(&mut v, "description").unwrap();
    assert_eq!(ids(&v), vec![2, 1, 3]);
    assert_eq!(apply_sort(&mut v, "colour"), Err(SortFieldError));
    assert_eq!(ids(&v), vec![2, 1, 3]);
    assert_eq!(parse_sort_field("date_added"), Ok(SortField::DateAdded));
}

#[test]
fn decode_good_rows() {
    let r = decode_row(&row(&["5", "Home", "Buy milk", "false", "1700000000", ""])).unwrap();
    assert_eq!(r.id, 5);
    assert_eq!(r.project, "Home");
    assert!(!r.completed);
    assert_eq!(r.date_added, 1_700_000_000);
    assert_eq!(r.date_completed, None);
    let r = decode_row(&row(&["+6", "W", "d", "true", "-86400", "86400"])).unwrap();
    assert_eq!(r.id, 6);
    assert_eq!(r.date_added, -86_400);
    assert_eq!(r.date_completed, Some(86_400));
}

#[test]
fn decode_errors_per_field() {
    assert_eq!(decode_row(&row(&["1", "a", "b", "false", "0"])).err(), Some(DecodeError::FieldCount));
    assert_eq!(decode_row(&row(&["x", "a", "b", "false", "0", ""])).err(), Some(DecodeError::Id));
    assert_eq!(decode_row(&row(&["4294967296", "a", "b", "false", "0", ""])).err(), Some(DecodeError::Id));
    assert_eq!(decode_row(&row(&["1", "a", "b", "yes", "0", ""])).err(), Some(DecodeError::Completed));
    assert_eq!(decode_row(&row(&["1", "a", "b", "true", "noon", ""])).err(), Some(DecodeError::DateAdded));
    assert_eq!(decode_row(&row(&["1", "a", "b", "true", "9223372036854775807", ""])).err(), Some(DecodeError::DateAdded));
    assert_eq!(decode_row(&row(&["1", "a", "b", "true", "0", "x"])).err(), Some(DecodeError::DateCompleted));
}

#[test]
fn encode_then_decode() {
    let mut r = rec(42, "Home", "Buy milk, eggs");
    r.completed = true;
    r.date_added = -5;
    r.date_completed = Some(1_700_000_000);
    let fields = encode_row(&r);
    assert_eq!(fields, row(&["42", "Home", "Buy milk, eggs", "true", "-5", "1700000000"]));
    let back = decode_row(&fields).unwrap();
    assert_eq!(back.id, 42);
    assert_eq!(back.desc, "Buy milk, eggs");
    assert_eq!(back.date_completed, Some(1_700_000_000));
    assert_eq!(header_fields(), row(&["id", "project", "desc", "completed", "date_added", "date_completed"]));
}

#[test]
fn load_skips_bad_rows() {
    let rows = vec![
        row(&["1", "a", "b", "false", "0", ""]),
        row(&["oops"]),
        row(&["2", "a", "c", "maybe", "0", ""]),
        row(&["3", "a", "d", "false", "0", ""]),
    ];
    let (good, bad) = load_rows(&rows);
    assert_eq!(ids(&good), vec![1, 3]);
    assert_eq!(bad, vec![(1, DecodeError::FieldCount), (2, DecodeError::Completed)]);
}

#[test]
fn numbers_and_text_helpers() {
    assert_eq!(parse_u32("4294967295"), Some(u32::MAX));
    assert_eq!(parse_u32("-1"), None);
    assert_eq!(parse_u32("+"), None);
    assert_eq!(parse_i64("-9223372036854775808"), Some(i64::MIN));
    assert_eq!(parse_i64("9223372036854775808"), None);
    assert_eq!(u64_text(0), "0");
    assert_eq!(u64_text(1_234_567), "1234567");
    assert_eq!(i64_text(i64::MIN), "-9223372036854775808");
    assert!(str_eq("abc", "abc"));
    assert!(!str_eq("abc", "abd"));
    assert!(contains_text("Homework", "mew"));
    assert!(contains_text("x", ""));
    assert!(!contains_text("ab", "abc"));
    let words = row(&["project", "==", "a", "b"]);
    assert_eq!(join_from(&words, 2), "a b");
    assert_eq!(join_from(&words, 9), "");
}

#[test]
fn header_and_action_choice() {
    assert!(needs_header(None));
    assert!(needs_header(Some(0)));
    assert!(!needs_header(Some(10)));
    assert_eq!(choose_action("task", 3), Action::Add);
    assert_eq!(choose_action("", 3), Action::Toggle(3));
    assert_eq!(choose_action("", 0), Action::Show);
}

#[test]
fn stamped_record_and_completion() {
    let r = new_record_now(2, "Home".to_string(), "x".to_string());
    assert_eq!(r.id, 3);
    assert!(!r.completed);
    let mut store = vec![r];
    complete_task(&mut store, 3);
    assert!(store[0].completed);
    assert!(store[0].date_completed.is_some());
}

#[test]
fn filter_from_split_words() {
    let words = row(&["project", "~=", "or"]);
    let f = parse_query_words(&words).unwrap_or_else(|_| panic!("parses"));
    assert_eq!(f.op, Op::Contains);
    assert_eq!(f.value, "or");
    let mut store = vec![rec(1, "Home", "a"), rec(2, "Work", "b")];
    assert_eq!(filter_by_words(&mut store, &words), Ok(()));
    assert_eq!(ids(&store), vec![2]);
    assert!(parse_query_words(&row(&["project", "<>"])).is_err());
}
