use doter::message::{advisory_message, io_message, parse_help, usize_to_string};

#[test]
fn decimal_rendering() {
    assert_eq!(usize_to_string(0), "0");
    assert_eq!(usize_to_string(7), "7");
    assert_eq!(usize_to_string(10), "10");
    assert_eq!(usize_to_string(1000), "1000");
    assert_eq!(usize_to_string(12345), "12345");
}

#[test]
fn advisory_message_text() {
    assert_eq!(
        advisory_message(3, 2),
        "Totally 3 error(s) with 2 hidden. You may configure this with --max-err"
    );
    assert_eq!(
        advisory_message(1, 0),
        "Totally 1 error(s) with 0 hidden. You may configure this with --max-err"
    );
}

#[test]
fn io_message_text() {
    assert_eq!(io_message(2), "2 unsucceeded file read attempts!");
}

#[test]
fn parse_help_message_text() {
    assert_eq!(parse_help(24), "File consists of 24 byte(s)");
}
