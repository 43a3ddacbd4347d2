use upman::messages::{decimal_text, error_report, StyledMessages};

#[test]
fn decimal_values() {
    assert_eq!(decimal_text(0), "0");
    assert_eq!(decimal_text(7), "7");
    assert_eq!(decimal_text(10), "10");
    assert_eq!(decimal_text(1203), "1203");
    assert_eq!(decimal_text(usize::MAX), usize::MAX.to_string());
}

#[test]
fn length_error_too_high() {
    let lines = StyledMessages::length_error(5, 1);
    assert_eq!(lines.len(), 3);
    assert_eq!(lines[0], "Command number '5' is out of bounds of config file");
    assert_eq!(lines[1], "There are currently only 1 command in the config file");
    assert!(lines[1].contains("only 1 command"));
    assert_eq!(lines[2], "Command numbers start at '1'");
}

#[test]
fn length_error_below_one() {
    let lines = StyledMessages::length_error(0, 3);
    assert_eq!(
        lines,
        vec![
            "Command number '0' is out of bounds of config file".to_string(),
            "Command numbers start at '1'".to_string()
        ]
    );
}

#[test]
fn length_error_empty_registry() {
    let lines = StyledMessages::length_error(2, 0);
    assert_eq!(lines.len(), 2);
    assert_eq!(lines[0], "There are currently no command in the config file.");
    assert_eq!(lines[1], "Use 'upman add <command>' to add a command");
}

#[test]
fn error_label() {
    assert_eq!(StyledMessages::Error.label(), "error:");
}

#[test]
fn error_report_layout() {
    let one = error_report("error:", &vec!["bad".to_string()]);
    assert_eq!(one, "error: bad\n");
    let many = error_report("E", &vec!["head".to_string(), "a".to_string(), "b".to_string()]);
    assert_eq!(many, "E head\n        a\n        b\n");
}
