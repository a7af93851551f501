use gdam::gitignore::{has_global_addons_ignore, update_gitignore};

fn lines(v: &[&str]) -> Vec<String> {
    v.iter().map(|s| s.to_string()).collect()
}

#[test]
fn appends_to_empty_file_without_leading_break() {
    assert_eq!(update_gitignore(&vec![], &lines(&["addons/X"])), Some("addons/X\n".to_string()));
}

#[test]
fn appends_after_break_when_file_not_empty() {
    assert_eq!(
        update_gitignore(&lines(&["*.tmp"]), &lines(&["addons/X", "*.tmp", "addons/Y"])),
        Some("\naddons/X\naddons/Y\n".to_string())
    );
}

#[test]
fn update_twice_appends_once() {
    let mut file = String::new();
    let entries = lines(&["addons/X"]);
    let first = update_gitignore(&lines(&[]), &entries).unwrap();
    file.push_str(&first);
    let existing: Vec<String> = file.lines().map(|l| l.to_string()).collect();
    assert_eq!(update_gitignore(&existing, &entries), None);
    assert_eq!(file.matches("addons/X").count(), 1);
}

#[test]
fn nothing_to_append_when_all_present() {
    assert_eq!(update_gitignore(&lines(&["addons/X", "b"]), &lines(&["addons/X"])), None);
    assert_eq!(update_gitignore(&lines(&["a"]), &lines(&[])), None);
}

#[test]
fn exact_line_match_only() {
    assert_eq!(
        update_gitignore(&lines(&[" addons/X"]), &lines(&["addons/X"])),
        Some("\naddons/X\n".to_string())
    );
}

#[test]
fn global_addons_patterns() {
    assert!(has_global_addons_ignore(&lines(&["x", "addons/"])));
    assert!(has_global_addons_ignore(&lines(&["  addons/*  "])));
    assert!(has_global_addons_ignore(&lines(&["addons"])));
    assert!(!has_global_addons_ignore(&lines(&["addons/X", "/addons"])));
    assert!(!has_global_addons_ignore(&lines(&[])));
}
