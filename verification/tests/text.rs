use note_store::text::{collect_titles, entry_title, note_file_name, trim, MAX_NOTES};

#[test]
fn trim_strips_surrounding_whitespace() {
    assert_eq!(trim(" \t a b \n "), "a b".to_string());
    assert_eq!(trim("abc"), "abc".to_string());
    assert_eq!(trim(""), "".to_string());
    assert_eq!(trim("   "), "".to_string());
    assert_eq!(trim("\t\r\n"), "".to_string());
}

#[test]
fn trim_strips_unicode_whitespace() {
    assert_eq!(trim("\u{2003}x\u{2003}"), "x".to_string());
    assert_eq!(trim("\u{a0}\u{3000}note\u{2028}"), "note".to_string());
}

#[test]
fn trim_keeps_inner_whitespace() {
    assert_eq!(trim("  a  b  "), "a  b".to_string());
}

#[test]
fn file_name_appends_suffix() {
    assert_eq!(note_file_name("a"), "a.txt".to_string());
    assert_eq!(note_file_name("todo list"), "todo list.txt".to_string());
    assert_eq!(note_file_name("x.txt"), "x.txt.txt".to_string());
}

#[test]
fn entry_title_of_note_files() {
    assert_eq!(entry_title("a.txt"), Some("a".to_string()));
    assert_eq!(entry_title(" a .txt"), Some("a".to_string()));
    assert_eq!(entry_title(".txt"), Some("".to_string()));
    assert_eq!(entry_title("x.txt.txt"), Some("x.txt".to_string()));
}

#[test]
fn entry_title_of_other_entries() {
    assert_eq!(entry_title("a.json"), None);
    assert_eq!(entry_title("a.TXT"), None);
    assert_eq!(entry_title("txt"), None);
    assert_eq!(entry_title(""), None);
    assert_eq!(entry_title("atxt"), None);
}

#[test]
fn enumeration_skips_entries_without_suffix() {
    let names = vec![
        "not-a-note.json".to_string(),
        "a.txt".to_string(),
        "b.txt".to_string(),
    ];
    let titles = collect_titles(&names);
    assert_eq!(titles, vec!["a".to_string(), "b".to_string()]);
}

#[test]
fn enumeration_caps_at_five() {
    let names = vec![
        "n1.txt".to_string(),
        "n2.txt".to_string(),
        "n3.txt".to_string(),
        "n4.txt".to_string(),
        "n5.txt".to_string(),
        "n6.txt".to_string(),
        "n7.txt".to_string(),
    ];
    let titles = collect_titles(&names);
    assert_eq!(titles.len(), MAX_NOTES);
    assert_eq!(
        titles,
        vec![
            "n1".to_string(),
            "n2".to_string(),
            "n3".to_string(),
            "n4".to_string(),
            "n5".to_string(),
        ]
    );
}

#[test]
fn enumeration_of_nothing_valid_is_empty() {
    let names = vec!["a.json".to_string(), "b.md".to_string()];
    assert_eq!(collect_titles(&names), Vec::<String>::new());
    assert_eq!(collect_titles(&Vec::new()), Vec::<String>::new());
}

#[test]
fn enumeration_trims_titles() {
    let names = vec!["  spaced title  .txt".to_string()];
    assert_eq!(collect_titles(&names), vec!["spaced title".to_string()]);
}
