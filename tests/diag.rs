use component_compiler::diag::{join, report, Label};
use component_compiler::markup::{attr, ParseError};

#[test]
fn unexpected_token_report() {
    let e = attr("a=b").unwrap_err().remove(0);
    let r = report(&e);
    assert_eq!(r.offset, 2);
    assert_eq!(r.message, "Unexpected token in input, expected {, \", '");
    assert_eq!(
        r.labels,
        vec![Label { start: 2, end: 3, message: "Unexpected token b".into(), primary: true }]
    );
}

#[test]
fn unexpected_end_with_nothing_expected() {
    let e = ParseError::Unexpected { start: 4, end: 4, found: None, expected: vec![] };
    let r = report(&e);
    assert_eq!(r.message, "Unexpected end of input, expected something else");
    assert_eq!(r.labels[0].message, "Unexpected token end of file");
}

#[test]
fn unclosed_delimiter_has_two_labels() {
    let e = attr("a={b").unwrap_err().remove(0);
    let r = report(&e);
    assert_eq!(r.message, "Unclosed delimiter {");
    assert_eq!(
        r.labels,
        vec![
            Label { start: 2, end: 3, message: "Unclosed delimiter {".into(), primary: false },
            Label {
                start: 4,
                end: 4,
                message: "Must be closed before this end of file".into(),
                primary: true
            },
        ]
    );
}

#[test]
fn mismatch_and_custom_reports() {
    let e = ParseError::MismatchedClose { start: 3, end: 7, expected: "a".into(), found: "b".into() };
    let r = report(&e);
    assert_eq!(r.message, "Closing tag b does not match the open element a");
    assert_eq!(r.labels[0].message, "Expected </a>");
    let e = ParseError::Custom { start: 1, end: 2, message: "bad".into() };
    let r = report(&e);
    assert_eq!(r.message, "bad");
    assert_eq!(r.labels, vec![Label { start: 1, end: 2, message: "bad".into(), primary: true }]);
}

#[test]
fn join_with_commas() {
    assert_eq!(join(&vec![]), "");
    assert_eq!(join(&vec!["x".to_string()]), "x");
    assert_eq!(join(&vec!["x".to_string(), "y".to_string(), "z".to_string()]), "x, y, z");
}
