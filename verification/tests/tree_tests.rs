use doter::tree::from;

fn path(parts: &[&str]) -> Vec<String> {
    parts.iter().map(|p| p.to_string()).collect()
}

#[test]
fn single_path_renders_as_chain() {
    let root = "root".to_string();
    let paths = vec![path(&["a", "b"])];
    let lines = from(&root, &paths);
    assert_eq!(lines, vec!["root", "└── a", "    └── b"]);
}

#[test]
fn shared_prefix_is_not_duplicated() {
    let root = "root".to_string();
    let paths = vec![path(&["a", "b", "c"]), path(&["a", "b", "d"])];
    let lines = from(&root, &paths);
    assert_eq!(
        lines,
        vec![
            "root",
            "└── a",
            "    └── b",
            "        └── c",
            "        └── d",
        ]
    );
    // "b" appears on exactly one line
    let b_count = lines.iter().filter(|l| l.contains("b")).count();
    assert_eq!(b_count, 1);
}

#[test]
fn inserting_same_path_twice_renders_identically() {
    let root = "root".to_string();
    let once = from(&root, &vec![path(&["a", "b"])]);
    let twice = from(&root, &vec![path(&["a", "b"]), path(&["a", "b"])]);
    assert_eq!(once, twice);
}

#[test]
fn no_paths_renders_root_alone() {
    let root = "r".to_string();
    let lines = from(&root, &Vec::new());
    assert_eq!(lines, vec!["r"]);
}

#[test]
fn siblings_keep_insertion_order() {
    let root = "r".to_string();
    let paths = vec![path(&["b"]), path(&["a"])];
    let lines = from(&root, &paths);
    assert_eq!(lines, vec!["r", "└── b", "└── a"]);
}

#[test]
fn empty_path_adds_nothing() {
    let root = "r".to_string();
    let paths = vec![path(&[]), path(&["a"])];
    let lines = from(&root, &paths);
    assert_eq!(lines, vec!["r", "└── a"]);
}
