use doter::classify::matches_extension;

fn check(name: &str, ext: &str) -> bool {
    matches_extension(&name.as_bytes().to_vec(), &ext.as_bytes().to_vec())
}

#[test]
fn candidate_extension_matches() {
    assert!(check("foo.sublime-keymap", "sublime-keymap"));
    assert!(check("a.b.sublime-keymap", "sublime-keymap"));
}

#[test]
fn wrong_extension_is_skipped() {
    assert!(!check("foo.txt", "sublime-keymap"));
    assert!(!check("foo.sublime-keymap.bak", "sublime-keymap"));
}

#[test]
fn no_dot_means_no_extension() {
    assert!(!check("sublime-keymap", "sublime-keymap"));
    assert!(!check("", "sublime-keymap"));
}

#[test]
fn hidden_file_has_no_extension() {
    assert!(!check(".sublime-keymap", "sublime-keymap"));
}

#[test]
fn extension_match_is_case_sensitive() {
    assert!(!check("foo.Sublime-Keymap", "sublime-keymap"));
}

#[test]
fn trailing_dot_yields_empty_extension() {
    assert!(check("foo.", ""));
    assert!(!check("foo.", "sublime-keymap"));
}
