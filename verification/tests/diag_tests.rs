use doter::diag::{
    aggregate, command_line_context, Diagnostic, ErrorCategory, ParseError, Severity, SourceBlob,
    WalkOutcome,
};
use doter::keymap::KeymapEntry;
use doter::text::{line_col_to_offset, normalize_line_endings};
use std::collections::HashMap;

fn walk_failure(msg: &str) -> WalkOutcome {
    WalkOutcome::WalkFailure(msg.to_string())
}

fn io_failure(parts: &[&str]) -> WalkOutcome {
    WalkOutcome::IoFailure(
        parts.iter().map(|p| p.to_string()).collect(),
        "permission denied".to_string(),
    )
}

fn run(outcomes: Vec<WalkOutcome>, cap: usize) -> Vec<Diagnostic> {
    let root = "root".to_string();
    let cmdline: Vec<u8> = Vec::new();
    aggregate(&outcomes, cap, &root, &cmdline, 0, 0)
}

#[test]
fn no_failures_emit_nothing() {
    let outcomes = vec![
        WalkOutcome::Parsed("root/a.sublime-keymap".to_string(), Vec::new()),
        WalkOutcome::Skipped("root/readme.md".to_string()),
    ];
    assert!(run(outcomes, 1).is_empty());
}

#[test]
fn cap_truncates_detailed_diagnostics() {
    let outcomes = vec![walk_failure("a"), walk_failure("b"), walk_failure("c")];
    let out = run(outcomes, 1);
    // min(1, 3) detailed plus one advisory
    assert_eq!(out.len(), 2);
    assert!(matches!(out[0].severity, Severity::Error));
    assert_eq!(out[0].message, "a");
    assert!(matches!(out[1].severity, Severity::Advice));
    assert_eq!(
        out[1].message,
        "Totally 3 error(s) with 2 hidden. You may configure this with --max-err"
    );
}

#[test]
fn cap_zero_hides_all_detailed_diagnostics() {
    let outcomes = vec![walk_failure("a"), walk_failure("b"), walk_failure("c")];
    let out = run(outcomes, 0);
    assert_eq!(out.len(), 1);
    assert_eq!(
        out[0].message,
        "Totally 3 error(s) with 3 hidden. You may configure this with --max-err"
    );
}

#[test]
fn large_cap_hides_nothing() {
    let outcomes = vec![walk_failure("a"), walk_failure("b"), walk_failure("c")];
    let out = run(outcomes, 5);
    assert_eq!(out.len(), 4);
    assert_eq!(out[0].message, "a");
    assert_eq!(out[1].message, "b");
    assert_eq!(out[2].message, "c");
    assert_eq!(
        out[3].message,
        "Totally 3 error(s) with 0 hidden. You may configure this with --max-err"
    );
}

#[test]
fn walk_failure_points_at_the_root_argument() {
    let args: Vec<Vec<u8>> = vec![
        b"prog".to_vec(),
        b"--packages".to_vec(),
        b"/nope".to_vec(),
    ];
    let (cmdline, off, alen) = command_line_context(&args, 2);
    assert_eq!(cmdline, b"prog --packages /nope".to_vec());
    assert_eq!(off, 16);
    assert_eq!(alen, 5);
    let outcomes = vec![walk_failure("No such file or directory")];
    let root = "/nope".to_string();
    let out = aggregate(&outcomes, 1, &root, &cmdline, off, alen);
    assert_eq!(out.len(), 2);
    let d = &out[0];
    assert_eq!(d.message, "No such file or directory");
    match &d.source {
        Some(SourceBlob::CommandLine(c)) => assert_eq!(*c, cmdline),
        _ => panic!("expected the command line as source"),
    }
    assert_eq!(d.spans.len(), 1);
    assert_eq!(d.spans[0].offset, 16);
    assert_eq!(d.spans[0].length, 5);
    assert_eq!(d.spans[0].label, "Path is inaccessible");
    assert!(d.help.is_some());
    assert_eq!(
        d.url.as_deref(),
        Some("https://www.sublimetext.com/docs/side_by_side.html")
    );
}

#[test]
fn first_argument_starts_at_offset_zero() {
    let args: Vec<Vec<u8>> = vec![b"prog".to_vec(), b"x".to_vec()];
    let (cmdline, off, alen) = command_line_context(&args, 0);
    assert_eq!(cmdline, b"prog x".to_vec());
    assert_eq!(off, 0);
    assert_eq!(alen, 4);
}

#[test]
fn valid_keymap_file_means_overall_success() {
    // the exact candidate-file scenario: right extension, valid content
    let name = b"foo.sublime-keymap".to_vec();
    let ext = b"sublime-keymap".to_vec();
    assert!(doter::classify::matches_extension(&name, &ext));
    let content = r#"[{"keys": ["ctrl+c"], "context": []}]"#;
    let normalized = normalize_line_endings(&content.as_bytes().to_vec());
    let text = String::from_utf8(normalized).unwrap();
    let parsed: Vec<HashMap<String, Vec<String>>> = deser_hjson::from_str(&text).unwrap();
    assert_eq!(parsed.len(), 1);
    assert_eq!(parsed[0]["keys"], vec!["ctrl+c".to_string()]);
    let entries: Vec<KeymapEntry> = Vec::new();
    let outcomes = vec![WalkOutcome::Parsed("root/foo.sublime-keymap".to_string(), entries)];
    assert!(run(outcomes, 1).is_empty());
}

#[test]
fn malformed_keymap_file_yields_one_parse_diagnostic() {
    // trailing comma plus missing context field
    let content = r#"[{"keys": ["ctrl+c",]}]"#;
    let text = normalize_line_endings(&content.as_bytes().to_vec());
    // drive the real parser into the malformed region with a typed target
    let err = deser_hjson::from_str::<Vec<Vec<String>>>(content).unwrap_err();
    let (category, line, col, msg) = match err {
        deser_hjson::Error::Syntax { line, col, .. } => {
            (ErrorCategory::Syntax, line, col, String::new())
        }
        deser_hjson::Error::Serde { line, col, message } => {
            (ErrorCategory::Data, line, col, message)
        }
        other => panic!("unexpected parser error: {other:?}"),
    };
    let expected_offset = line_col_to_offset(&text, line, col);
    let outcomes = vec![WalkOutcome::ParseFailure(
        "root/bad.sublime-keymap".to_string(),
        ParseError {
            text: text.clone(),
            category,
            line,
            col,
            message: msg,
        },
    )];
    let out = run(outcomes, 1);
    assert_eq!(out.len(), 2);
    let d = &out[0];
    assert!(matches!(d.severity, Severity::Error));
    // a category heading
    assert!(d.message == "Invalid syntax!" || d.message == "Invalid data!");
    // one span pointing inside the text
    assert_eq!(d.spans.len(), 1);
    assert_eq!(d.spans[0].offset, expected_offset);
    assert!(d.spans[0].offset <= text.len());
    assert!(d.spans[0].offset > 0);
    match &d.source {
        Some(SourceBlob::FileText(path, t)) => {
            assert_eq!(path, "root/bad.sublime-keymap");
            assert_eq!(*t, text);
        }
        _ => panic!("expected the file text as source"),
    }
    assert_eq!(
        d.help.as_deref(),
        Some(format!("File consists of {} byte(s)", text.len()).as_str())
    );
    assert_eq!(
        out[1].message,
        "Totally 1 error(s) with 0 hidden. You may configure this with --max-err"
    );
}

#[test]
fn data_error_carries_the_parser_message_as_label() {
    let text = b"[{\"keys\": [\"ctrl+c\",]}]".to_vec();
    let outcomes = vec![WalkOutcome::ParseFailure(
        "root/bad.sublime-keymap".to_string(),
        ParseError {
            text,
            category: ErrorCategory::Data,
            line: 1,
            col: 21,
            message: "missing field `context`".to_string(),
        },
    )];
    let out = run(outcomes, 1);
    assert_eq!(out.len(), 2);
    assert_eq!(out[0].message, "Invalid data!");
    assert_eq!(out[0].spans.len(), 1);
    assert_eq!(out[0].spans[0].label, "missing field `context`");
    assert_eq!(out[0].spans[0].offset, 20);
}

#[test]
fn parser_error_without_location_has_no_span() {
    let outcomes = vec![WalkOutcome::ParseFailure(
        "root/bad.sublime-keymap".to_string(),
        ParseError {
            text: b"x".to_vec(),
            category: ErrorCategory::Other,
            line: 0,
            col: 0,
            message: "opaque".to_string(),
        },
    )];
    let out = run(outcomes, 1);
    assert_eq!(out.len(), 2);
    assert_eq!(out[0].message, "Invalid configuration file!");
    assert!(out[0].spans.is_empty());
}

#[test]
fn unreadable_entry_lands_in_the_failure_tree_summary() {
    // a subdirectory whose read failed, grouped under its parent
    let outcomes = vec![io_failure(&["sub", "locked.sublime-keymap"])];
    let out = run(outcomes, 1);
    assert_eq!(out.len(), 2);
    let d = &out[0];
    assert!(matches!(d.severity, Severity::Error));
    assert_eq!(d.message, "1 unsucceeded file read attempts!");
    match &d.source {
        Some(SourceBlob::Listing(lines)) => {
            assert_eq!(
                *lines,
                vec![
                    "root".to_string(),
                    "└── sub".to_string(),
                    "    └── locked.sublime-keymap".to_string(),
                ]
            );
        }
        _ => panic!("expected the rendered failure tree as source"),
    }
    assert_eq!(
        d.help.as_deref(),
        Some("Please ensure that all nodes in the path have proper permissions.")
    );
    // the summary counts toward the total; nothing is hidden
    assert_eq!(
        out[1].message,
        "Totally 1 error(s) with 0 hidden. You may configure this with --max-err"
    );
}

#[test]
fn cap_zero_does_not_truncate_the_summary() {
    let outcomes = vec![io_failure(&["sub", "x"])];
    let out = run(outcomes, 0);
    assert_eq!(out.len(), 2);
    assert_eq!(out[0].message, "1 unsucceeded file read attempts!");
    assert_eq!(
        out[1].message,
        "Totally 1 error(s) with 0 hidden. You may configure this with --max-err"
    );
}

#[test]
fn summary_comes_first_and_is_never_truncated() {
    let outcomes = vec![
        walk_failure("a"),
        io_failure(&["sub", "x"]),
        walk_failure("b"),
        io_failure(&["sub", "y"]),
    ];
    let out = run(outcomes, 1);
    // tree summary + min(1, 2) detailed + advisory
    assert_eq!(out.len(), 3);
    assert_eq!(out[0].message, "2 unsucceeded file read attempts!");
    assert_eq!(out[1].message, "a");
    assert_eq!(
        out[2].message,
        "Totally 3 error(s) with 1 hidden. You may configure this with --max-err"
    );
    match &out[0].source {
        Some(SourceBlob::Listing(lines)) => {
            assert_eq!(
                *lines,
                vec![
                    "root".to_string(),
                    "└── sub".to_string(),
                    "    └── x".to_string(),
                    "    └── y".to_string(),
                ]
            );
        }
        _ => panic!("expected the rendered failure tree as source"),
    }
}
