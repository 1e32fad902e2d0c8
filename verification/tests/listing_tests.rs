use dcreel::listing::{folder_entry_shown, sort_folder_items, sort_folder_items_by_keys};
use dcreel::selection::FolderItem;

fn entry(name: &str, is_dir: bool) -> FolderItem {
    FolderItem {
        name: name.into(),
        path: format!(r"C:\listing-test\{name}"),
        is_dir,
        modified_at_nanos: 0,
        length: 0,
    }
}

#[test]
fn desktop_ini_is_never_shown() {
    assert!(!folder_entry_shown("desktop.ini", false, true));
    assert!(!folder_entry_shown("Desktop.INI", false, true));
    assert!(folder_entry_shown("desktop.ini.bak", false, true));
}

#[test]
fn hidden_entries_follow_the_preference() {
    assert!(!folder_entry_shown(".hidden.txt", false, false));
    assert!(folder_entry_shown(".hidden.txt", false, true));
    assert!(!folder_entry_shown("secret.txt", true, false));
    assert!(folder_entry_shown("secret.txt", true, true));
    assert!(folder_entry_shown("visible.txt", false, false));
}

#[test]
fn folders_come_first_then_names_without_case() {
    let mut items = vec![
        entry("beta.txt", false),
        entry("Zeta", true),
        entry("Alpha.txt", false),
        entry("alpha", true),
        entry("ÄPFEL.txt", false),
        entry("gamma.txt", false),
    ];
    sort_folder_items(&mut items);
    let names: Vec<&str> = items.iter().map(|item| item.name.as_str()).collect();
    assert_eq!(names, vec!["alpha", "Zeta", "Alpha.txt", "beta.txt", "gamma.txt", "ÄPFEL.txt"]);
}

#[test]
fn entries_that_sort_alike_keep_their_order() {
    let mut items = vec![entry("Note.txt", false), entry("note.txt", false), entry("NOTE.TXT", false)];
    sort_folder_items(&mut items);
    let paths: Vec<&str> = items.iter().map(|item| item.path.as_str()).collect();
    assert_eq!(paths, vec![r"C:\listing-test\Note.txt", r"C:\listing-test\note.txt", r"C:\listing-test\NOTE.TXT"]);
}

#[test]
fn entries_sort_by_the_keys_given_with_folders_first() {
    let mut items = vec![
        entry("one.txt", false),
        entry("two", true),
        entry("three.txt", false),
        entry("four", true),
    ];
    let keys = vec!["c".to_string(), "b".to_string(), "a".to_string(), "d".to_string()];
    sort_folder_items_by_keys(&mut items, keys);
    let names: Vec<&str> = items.iter().map(|item| item.name.as_str()).collect();
    assert_eq!(names, vec!["two", "four", "three.txt", "one.txt"]);
}

#[test]
fn entries_with_equal_keys_keep_their_order() {
    let mut items = vec![entry("B", false), entry("a", false), entry("C", false)];
    let keys = vec!["k".to_string(), "k".to_string(), "j".to_string()];
    sort_folder_items_by_keys(&mut items, keys);
    let names: Vec<&str> = items.iter().map(|item| item.name.as_str()).collect();
    assert_eq!(names, vec!["C", "B", "a"]);
}
