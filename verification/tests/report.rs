use pest_ascii_tree::{report, FormatError, ParseNode, Report};

#[test]
fn a_failed_parse_gives_its_description_as_diagnostic() {
    let shown = report(Err("expected expr at line 1".to_string()));
    assert_eq!(shown, Report::Diagnostic("expected expr at line 1".to_string()));
    assert_eq!(report(Err(String::new())), Report::Diagnostic(String::new()));
}

#[test]
fn a_parse_gives_its_tree_as_output() {
    let forest = vec![ParseNode {
        rule: "val".to_string(),
        text: "m".to_string(),
        children: vec![],
    }];
    assert_eq!(report(Ok(forest)), Report::Output(" val \"m\"\n".to_string()));
    assert_eq!(report(Ok(vec![])), Report::Output(String::new()));
}

#[test]
fn the_format_error_describes_itself() {
    assert_eq!(FormatError.description(), std::fmt::Error.to_string());
    assert_eq!(FormatError.description(), "an error occurred when formatting an argument");
    assert_eq!(FormatError::from(std::fmt::Error), FormatError);
}
