use note_plan::data::{Document, Note, Todo};
use note_plan::store::Store;

fn empty_store() -> Store {
    Store::new(Document::new_empty())
}

fn make_todo(id: &str, task: &str, completed: bool, is_daily: bool) -> Todo {
    Todo {
        id: id.to_string(),
        task: task.to_string(),
        completed,
        is_daily,
        created_at: "2024-01-01T00:00:00+00:00".to_string(),
    }
}

fn make_note(id: &str, title: &str, tags: Option<Vec<&str>>) -> Note {
    Note {
        id: id.to_string(),
        title: title.to_string(),
        content: "body".to_string(),
        tags: tags.map(|ts| ts.into_iter().map(|t| t.to_string()).collect()),
        created_at: "2024-01-01T00:00:00+00:00".to_string(),
        updated_at: "2024-01-01T00:00:00+00:00".to_string(),
    }
}

#[test]
fn add_note_then_get_notes_shows_one_normalized_note() {
    let mut store = empty_store();
    store.add_note(
        "Groceries".to_string(),
        "milk, eggs".to_string(),
        Some(vec![" Work ".to_string(), "WORK".to_string(), "urgent".to_string()]),
    );
    let notes = store.get_notes();
    assert_eq!(notes.len(), 1);
    let n = &notes[0];
    assert_eq!(n.title, "Groceries");
    assert_eq!(n.content, "milk, eggs");
    assert_eq!(
        n.tags.as_ref().unwrap(),
        &vec!["work".to_string(), "work".to_string(), "urgent".to_string()]
    );
    assert_eq!(n.created_at, n.updated_at);
    assert!(!n.id.is_empty());
}

#[test]
fn add_note_without_tags_keeps_none() {
    let mut store = empty_store();
    store.add_note("a".to_string(), "b".to_string(), None);
    let notes = store.get_notes();
    assert_eq!(notes.len(), 1);
    assert!(notes[0].tags.is_none());
}

#[test]
fn update_note_unknown_id_errs_and_changes_nothing() {
    let mut store = empty_store();
    store.add_note("t".to_string(), "c".to_string(), None);
    let before = store.get_notes();
    let missing = "no-such-id".to_string();
    let r = store.update_note(&missing, "x".to_string(), "y".to_string(), None);
    assert!(r.is_err());
    let after = store.get_notes();
    assert_eq!(before.len(), after.len());
    assert_eq!(before[0].title, after[0].title);
    assert_eq!(before[0].content, after[0].content);
    assert_eq!(before[0].updated_at, after[0].updated_at);
}

#[test]
fn update_note_replaces_fields_and_keeps_created_at() {
    let mut store = empty_store();
    store.add_note("old title".to_string(), "old content".to_string(), None);
    let id = store.get_notes()[0].id.clone();
    let created = store.get_notes()[0].created_at.clone();
    let r = store.update_note(
        &id,
        "new title".to_string(),
        "new content".to_string(),
        Some(vec!["  TagA ".to_string(), "   ".to_string()]),
    );
    assert!(r.is_ok());
    let notes = store.get_notes();
    assert_eq!(notes.len(), 1);
    assert_eq!(notes[0].id, id);
    assert_eq!(notes[0].title, "new title");
    assert_eq!(notes[0].content, "new content");
    assert_eq!(notes[0].tags.as_ref().unwrap(), &vec!["taga".to_string()]);
    assert_eq!(notes[0].created_at, created);
}

#[test]
fn delete_note_unknown_id_is_noop_without_write() {
    let mut store = empty_store();
    store.add_note("t".to_string(), "c".to_string(), None);
    let missing = "absent".to_string();
    let changed = store.delete_note(&missing);
    assert!(!changed);
    assert_eq!(store.get_notes().len(), 1);
}

#[test]
fn delete_note_removes_matching_note() {
    let mut store = empty_store();
    store.add_note("a".to_string(), "1".to_string(), None);
    store.add_note("b".to_string(), "2".to_string(), None);
    let id = store.get_notes()[0].id.clone();
    let changed = store.delete_note(&id);
    assert!(changed);
    let notes = store.get_notes();
    assert_eq!(notes.len(), 1);
    assert_eq!(notes[0].title, "b");
}

#[test]
fn get_all_tags_unions_and_dedups() {
    let doc = Document {
        notes: vec![
            make_note("n1", "one", Some(vec!["work", "urgent"])),
            make_note("n2", "two", Some(vec!["urgent"])),
            make_note("n3", "three", None),
        ],
        todos: Vec::new(),
        last_daily_reset_date: None,
    };
    let store = Store::new(doc);
    let mut tags = store.get_all_tags();
    tags.sort();
    assert_eq!(tags, vec!["urgent".to_string(), "work".to_string()]);
}

#[test]
fn get_all_tags_after_normalizing_adds() {
    let mut store = empty_store();
    store.add_note(
        "one".to_string(),
        "".to_string(),
        Some(vec![" Work ".to_string(), "WORK".to_string(), "urgent".to_string()]),
    );
    store.add_note("two".to_string(), "".to_string(), Some(vec!["urgent".to_string()]));
    let mut tags = store.get_all_tags();
    tags.sort();
    assert_eq!(tags, vec!["urgent".to_string(), "work".to_string()]);
}

#[test]
fn add_todo_starts_incomplete() {
    let mut store = empty_store();
    store.add_todo("water plants".to_string(), true);
    let todos = store.get_todos();
    assert_eq!(todos.len(), 1);
    assert_eq!(todos[0].task, "water plants");
    assert!(!todos[0].completed);
    assert!(todos[0].is_daily);
}

#[test]
fn toggle_todo_flips_once_and_twice_restores() {
    let doc = Document {
        notes: Vec::new(),
        todos: vec![make_todo("t1", "a", false, false)],
        last_daily_reset_date: None,
    };
    let mut store = Store::new(doc);
    let id = "t1".to_string();
    assert!(store.toggle_todo_status(&id).is_ok());
    assert!(store.get_todos()[0].completed);
    assert!(store.toggle_todo_status(&id).is_ok());
    assert!(!store.get_todos()[0].completed);
}

#[test]
fn toggle_todo_unknown_id_errs() {
    let mut store = empty_store();
    let id = "missing".to_string();
    assert!(store.toggle_todo_status(&id).is_err());
}

#[test]
fn delete_todo_unknown_id_is_noop_without_write() {
    let doc = Document {
        notes: Vec::new(),
        todos: vec![make_todo("t1", "a", false, false)],
        last_daily_reset_date: None,
    };
    let mut store = Store::new(doc);
    let missing = "absent".to_string();
    assert!(!store.delete_todo(&missing));
    assert_eq!(store.get_todos().len(), 1);
    let id = "t1".to_string();
    assert!(store.delete_todo(&id));
    assert_eq!(store.get_todos().len(), 0);
}

#[test]
fn check_and_reset_with_no_recorded_date_processes_a_cycle() {
    let doc = Document {
        notes: Vec::new(),
        todos: vec![make_todo("t1", "daily done", true, true)],
        last_daily_reset_date: None,
    };
    let mut store = Store::new(doc);
    let (processed, modified) = store.check_and_reset_daily_todos();
    assert!(processed);
    assert!(modified);
    assert!(!store.get_todos()[0].completed);
    assert!(store.doc.last_daily_reset_date.is_some());
}
