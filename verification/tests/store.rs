use note_store::store::{plan_create, read_failure_text, NoteStore, StoreError};

#[test]
fn round_trip_returns_trimmed_contents() {
    let mut store = NoteStore::new();
    assert_eq!(store.create("todo", " buy milk \n"), Ok(()));
    assert_eq!(store.read("todo"), Ok("buy milk".to_string()));
}

#[test]
fn second_create_fails_and_keeps_first_contents() {
    let mut store = NoteStore::new();
    assert_eq!(store.create("todo", "first"), Ok(()));
    assert_eq!(store.create("todo", "second"), Err(StoreError::AlreadyExists));
    assert_eq!(store.read("todo"), Ok("first".to_string()));
}

#[test]
fn delete_removes_the_note() {
    let mut store = NoteStore::new();
    assert_eq!(store.create("todo", "buy milk"), Ok(()));
    assert_eq!(store.delete("todo"), Ok(()));
    assert_eq!(store.read("todo"), Err(StoreError::NotFound));
    assert_eq!(store.read_display("todo"), read_failure_text());
    assert!(!store.list_titles().contains(&"todo".to_string()));
}

#[test]
fn enumeration_reports_at_most_five_of_seven() {
    let mut store = NoteStore::new();
    for i in 1..=7 {
        let title = format!("note{i}");
        assert_eq!(store.create(&title, "text"), Ok(()));
    }
    let titles = store.list_titles();
    assert_eq!(titles.len(), 5);
    assert_eq!(
        titles,
        vec![
            "note1".to_string(),
            "note2".to_string(),
            "note3".to_string(),
            "note4".to_string(),
            "note5".to_string(),
        ]
    );
}

#[test]
fn delete_of_absent_fails_cleanly() {
    let mut store = NoteStore::new();
    assert_eq!(store.create("kept", "text"), Ok(()));
    assert_eq!(store.delete("nonexistent"), Err(StoreError::NotFound));
    assert_eq!(store.list_titles(), vec!["kept".to_string()]);
    assert_eq!(store.read("kept"), Ok("text".to_string()));
}

#[test]
fn empty_input_is_rejected() {
    let mut store = NoteStore::new();
    assert_eq!(store.create("", "x"), Err(StoreError::InvalidInput));
    assert_eq!(store.create("  ", "x"), Err(StoreError::InvalidInput));
    assert_eq!(store.create("title", "   "), Err(StoreError::InvalidInput));
    assert_eq!(store.list_titles(), Vec::<String>::new());
    assert_eq!(store.read("title"), Err(StoreError::NotFound));
}

#[test]
fn example_scenario() {
    let mut store = NoteStore::new();
    assert_eq!(store.list_titles(), Vec::<String>::new());
    assert_eq!(store.create("todo", "buy milk"), Ok(()));
    assert_eq!(store.list_titles(), vec!["todo".to_string()]);
    assert_eq!(store.read("todo"), Ok("buy milk".to_string()));
    assert_eq!(store.read_display("todo"), "buy milk".to_string());
    assert_eq!(store.delete("todo"), Ok(()));
    assert_eq!(store.list_titles(), Vec::<String>::new());
    assert_eq!(store.read_display("todo"), read_failure_text());
}

#[test]
fn titles_differing_only_in_whitespace_are_distinct_notes() {
    let mut store = NoteStore::new();
    assert_eq!(store.create("a", "one"), Ok(()));
    assert_eq!(store.create(" a", "two"), Ok(()));
    assert_eq!(store.read("a"), Ok("one".to_string()));
    assert_eq!(store.read(" a"), Ok("two".to_string()));
    // both enumerate under the trimmed title
    assert_eq!(store.list_titles(), vec!["a".to_string(), "a".to_string()]);
}

#[test]
fn read_failure_text_is_the_sentinel() {
    assert_eq!(
        read_failure_text(),
        "<ERROR: Could not read note content>".to_string()
    );
}

#[test]
fn plan_create_gives_file_name_and_trimmed_contents() {
    assert_eq!(
        plan_create("todo", " buy milk "),
        Ok(("todo.txt".to_string(), "buy milk".to_string()))
    );
    assert_eq!(plan_create(" ", "x"), Err(StoreError::InvalidInput));
    assert_eq!(plan_create("x", "\t\n"), Err(StoreError::InvalidInput));
}
