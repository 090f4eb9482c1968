use note_plan::codec::{decode_document_or_default, encode_document, load_from_content, parse_document};
use note_plan::data::{Document, Note, Todo};
use note_plan::reset::{apply_daily_reset, str_lt};
use note_plan::tags::normalize_tags;

fn sample_document() -> Document {
    Document {
        notes: vec![
            Note {
                id: "n-1".to_string(),
                title: "A \"quoted\" title".to_string(),
                content: "line one\nline two\tand a \\ backslash \u{1}".to_string(),
                tags: Some(vec!["work".to_string(), "urgent".to_string()]),
                created_at: "2024-01-01T08:30:00+00:00".to_string(),
                updated_at: "2024-01-02T09:00:00+00:00".to_string(),
            },
            Note {
                id: "n-2".to_string(),
                title: "plain".to_string(),
                content: "".to_string(),
                tags: None,
                created_at: "2024-01-03T00:00:00+00:00".to_string(),
                updated_at: "2024-01-03T00:00:00+00:00".to_string(),
            },
        ],
        todos: vec![
            Todo {
                id: "t-1".to_string(),
                task: "water plants".to_string(),
                completed: true,
                is_daily: true,
                created_at: "2024-01-01T10:00:00+00:00".to_string(),
            },
            Todo {
                id: "t-2".to_string(),
                task: "file taxes".to_string(),
                completed: false,
                is_daily: false,
                created_at: "2024-01-01T11:00:00+00:00".to_string(),
            },
        ],
        last_daily_reset_date: Some("2024-01-02".to_string()),
    }
}

fn documents_equal(a: &Document, b: &Document) -> bool {
    if a.notes.len() != b.notes.len() || a.todos.len() != b.todos.len() {
        return false;
    }
    for (x, y) in a.notes.iter().zip(b.notes.iter()) {
        if x.id != y.id || x.title != y.title || x.content != y.content || x.tags != y.tags
            || x.created_at != y.created_at || x.updated_at != y.updated_at
        {
            return false;
        }
    }
    for (x, y) in a.todos.iter().zip(b.todos.iter()) {
        if x.id != y.id || x.task != y.task || x.completed != y.completed
            || x.is_daily != y.is_daily || x.created_at != y.created_at
        {
            return false;
        }
    }
    a.last_daily_reset_date == b.last_daily_reset_date
}

#[test]
fn round_trip_recovers_the_document() {
    let d = sample_document();
    let text = encode_document(&d);
    let back = parse_document(&text).expect("the encoder's output must parse");
    assert!(documents_equal(&d, &back));
}

#[test]
fn round_trip_of_the_empty_document() {
    let d = Document::new_empty();
    let text = encode_document(&d);
    assert_eq!(
        text,
        "{\n  \"notes\": [],\n  \"todos\": [],\n  \"last_daily_reset_date\": null\n}"
    );
    let back = parse_document(&text).expect("must parse");
    assert!(documents_equal(&d, &back));
}

#[test]
fn encoder_output_is_valid_json_with_the_expected_fields() {
    let d = sample_document();
    let text = encode_document(&d);
    let value: serde_json::Value = serde_json::from_str(&text).expect("valid JSON");
    assert_eq!(value["notes"].as_array().unwrap().len(), 2);
    assert_eq!(value["notes"][0]["id"], "n-1");
    assert_eq!(value["notes"][0]["title"], "A \"quoted\" title");
    assert_eq!(
        value["notes"][0]["content"],
        "line one\nline two\tand a \\ backslash \u{1}"
    );
    assert_eq!(value["notes"][1]["tags"], serde_json::Value::Null);
    assert_eq!(value["todos"][0]["task"], "water plants");
    assert_eq!(value["todos"][0]["completed"], true);
    assert_eq!(value["todos"][1]["completed"], false);
    assert_eq!(value["last_daily_reset_date"], "2024-01-02");
}

#[test]
fn loading_missing_content_yields_empty_document() {
    let d = load_from_content(None);
    assert!(documents_equal(&d, &Document::new_empty()));
}

#[test]
fn loading_malformed_content_yields_empty_document() {
    let truncated = "{\n  \"notes\": [{\"id\": \"n-1\", \"ti";
    let d = decode_document_or_default(truncated);
    assert!(documents_equal(&d, &Document::new_empty()));
    let garbage = load_from_content(Some("not json at all"));
    assert!(documents_equal(&garbage, &Document::new_empty()));
}

#[test]
fn date_comparison_is_lexicographic() {
    assert!(str_lt("2024-01-01", "2024-01-02"));
    assert!(str_lt("2023-12-31", "2024-01-01"));
    assert!(!str_lt("2024-01-02", "2024-01-02"));
    assert!(!str_lt("2024-01-02", "2024-01-01"));
    assert!(str_lt("", "a"));
    assert!(!str_lt("a", ""));
}

#[test]
fn reset_after_yesterday_clears_daily_and_stamps_today() {
    let mut doc = Document {
        notes: Vec::new(),
        todos: vec![
            Todo {
                id: "t-1".to_string(),
                task: "daily chore".to_string(),
                completed: true,
                is_daily: true,
                created_at: "2024-01-01T00:00:00+00:00".to_string(),
            },
            Todo {
                id: "t-2".to_string(),
                task: "not daily".to_string(),
                completed: true,
                is_daily: false,
                created_at: "2024-01-01T00:00:00+00:00".to_string(),
            },
        ],
        last_daily_reset_date: Some("2024-01-01".to_string()),
    };
    let (processed, modified) = apply_daily_reset(&mut doc, "2024-01-02");
    assert!(processed);
    assert!(modified);
    assert!(!doc.todos[0].completed);
    assert!(doc.todos[1].completed);
    assert_eq!(doc.last_daily_reset_date.as_deref(), Some("2024-01-02"));

    let (processed2, modified2) = apply_daily_reset(&mut doc, "2024-01-02");
    assert!(!processed2);
    assert!(!modified2);
    assert!(!doc.todos[0].completed);
    assert!(doc.todos[1].completed);
    assert_eq!(doc.last_daily_reset_date.as_deref(), Some("2024-01-02"));
}

#[test]
fn due_reset_with_nothing_to_clear_still_stamps_the_date() {
    let mut doc = Document {
        notes: Vec::new(),
        todos: vec![Todo {
            id: "t-1".to_string(),
            task: "daily chore".to_string(),
            completed: false,
            is_daily: true,
            created_at: "2024-01-01T00:00:00+00:00".to_string(),
        }],
        last_daily_reset_date: Some("2024-01-01".to_string()),
    };
    let (processed, modified) = apply_daily_reset(&mut doc, "2024-01-02");
    assert!(processed);
    assert!(!modified);
    assert_eq!(doc.last_daily_reset_date.as_deref(), Some("2024-01-02"));
}

#[test]
fn normalization_trims_lowercases_and_drops_empty() {
    let input = vec![" Work ".to_string(), "WORK".to_string(), "urgent".to_string(), "   ".to_string(), "".to_string()];
    let out = normalize_tags(&input);
    assert_eq!(out, vec!["work".to_string(), "work".to_string(), "urgent".to_string()]);
}

#[test]
fn normalization_is_idempotent() {
    let input = vec![" Mixed CASE tag ".to_string(), "\tTAB\t".to_string(), " ".to_string()];
    let once = normalize_tags(&input);
    let twice = normalize_tags(&once);
    assert_eq!(once, twice);
}
