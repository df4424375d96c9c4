//! Diagnostics: the text of a report for each parse error, with the spans
//! that its labels point at.
use crate::markup::{strings_view, ParseError};
use vstd::prelude::*;
use vstd::string::*;

verus! {

/// A label of a report: a span of the source and what it says there.
#[derive(Debug, Clone, PartialEq, Eq)]
pub struct Label {
    pub start: usize,
    pub end: usize,
    pub message: String,
    /// The label at the error itself, as opposed to a related place.
    pub primary: bool,
}

/// A report on one parse error.
#[derive(Debug, Clone, PartialEq, Eq)]
pub struct Report {
    /// Where the report is anchored in the source.
    pub offset: usize,
    pub message: String,
    pub labels: Vec<Label>,
}

/// `items` joined by `", "`.
pub open spec fn join_spec(items: Seq<Seq<char>>) -> Seq<char>
    decreases items.len(),
{
    if items.len() == 0 {
        Seq::empty()
    } else if items.len() == 1 {
        items[0]
    } else {
        join_spec(items.drop_last()) + ", "@ + items.last()
    }
}

/// The text of what was found: the character, or the end of the file.
pub open spec fn found_text(found: Option<char>) -> Seq<char> {
    match found {
        Some(c) => seq![c],
        None => "end of file"@,
    }
}

/// The list of expected forms, or "something else" when it is empty.
pub open spec fn expected_text(expected: Seq<Seq<char>>) -> Seq<char> {
    if expected.len() == 0 {
        "something else"@
    } else {
        join_spec(expected)
    }
}

/// The main message of the report on `e`.
pub open spec fn message_spec(e: ParseError) -> Seq<char> {
    match e {
        ParseError::UnclosedDelimiter { delimiter, .. } => "Unclosed delimiter "@ + seq![delimiter],
        ParseError::Unexpected { found, expected, .. } => (if found is Some {
            "Unexpected token in input"@
        } else {
            "Unexpected end of input"@
        }) + ", expected "@ + expected_text(strings_view(expected@)),
        ParseError::MismatchedClose { expected, found, .. } => "Closing tag "@ + found@
            + " does not match the open element "@ + expected@,
        ParseError::Custom { message, .. } => message@,
    }
}

/// The labels of the report on `e`, as span, text and whether primary.
pub open spec fn labels_spec(e: ParseError) -> Seq<(int, int, Seq<char>, bool)> {
    match e {
        ParseError::UnclosedDelimiter { open_start, open_end, delimiter, at } => seq![
            (open_start as int, open_end as int, "Unclosed delimiter "@ + seq![delimiter], false),
            (at as int, at as int, "Must be closed before this "@ + found_text(None), true),
        ],
        ParseError::Unexpected { start, end, found, .. } => seq![
            (start as int, end as int, "Unexpected token "@ + found_text(found), true),
        ],
        ParseError::MismatchedClose { start, end, expected, .. } => seq![
            (start as int, end as int, "Expected </"@ + expected@ + ">"@, true),
        ],
        ParseError::Custom { start, end, message } => seq![
            (start as int, end as int, message@, true),
        ],
    }
}

/// Where the report on `e` is anchored: the start of its primary span.
pub open spec fn offset_spec(e: ParseError) -> int {
    match e {
        ParseError::UnclosedDelimiter { at, .. } => at as int,
        ParseError::Unexpected { start, .. } => start as int,
        ParseError::MismatchedClose { start, .. } => start as int,
        ParseError::Custom { start, .. } => start as int,
    }
}

pub open spec fn labels_view(v: Seq<Label>) -> Seq<(int, int, Seq<char>, bool)> {
    v.map_values(|l: Label| (l.start as int, l.end as int, l.message@, l.primary))
}

/// Relies on `char::to_string`: the text of one character.
#[verifier::external_body]
fn char_text(c: char) -> (r: String)
    ensures
        r@ == seq![c],
{
    c.to_string()
}

/// Joins `items` with `", "`.
pub fn join(items: &Vec<String>) -> (r: String)
    ensures
        r@ == join_spec(strings_view(items@)),
{
    let ghost v = strings_view(items@);
    let mut out = String::new();
    let mut k: usize = 0;
    while k < items.len()
        invariant
            k <= items@.len(),
            v == strings_view(items@),
            out@ == join_spec(v.take(k as int)),
        decreases items@.len() - k,
    {
        if k > 0 {
            out.append(", ");
        }
        out.append(items[k].as_str());
        assert(v.take(k + 1).drop_last() =~= v.take(k as int));
        if k == 0 {
            assert(out@ =~= join_spec(v.take(1)));
        } else {
            assert(out@ =~= join_spec(v.take(k + 1)));
        }
        k = k + 1;
    }
    assert(v.take(k as int) =~= v);
    out
}

fn found_string(found: Option<char>) -> (r: String)
    ensures
        r@ == found_text(found),
{
    match found {
        Some(c) => char_text(c),
        None => String::from_str("end of file"),
    }
}

/// The report on the parse error `e`: its message, where it is anchored,
/// and its labels; an unclosed delimiter gets a second label at its opening.
pub fn report(e: &ParseError) -> (r: Report)
    ensures
        r.offset == offset_spec(*e),
        r.message@ == message_spec(*e),
        labels_view(r.labels@) == labels_spec(*e),
{
    match e {
        ParseError::UnclosedDelimiter { open_start, open_end, delimiter, at } => {
            let message = String::from_str("Unclosed delimiter ").concat(char_text(*delimiter).as_str());
            let open_label = Label {
                start: *open_start,
                end: *open_end,
                message: String::from_str("Unclosed delimiter ").concat(
                    char_text(*delimiter).as_str(),
                ),
                primary: false,
            };
            let end_label = Label {
                start: *at,
                end: *at,
                message: String::from_str("Must be closed before this ").concat(
                    found_string(None).as_str(),
                ),
                primary: true,
            };
            let labels = vec![open_label, end_label];
            assert(labels_view(labels@) =~= labels_spec(*e));
            Report { offset: *at, message, labels }
        },
        ParseError::Unexpected { start, end, found, expected } => {
            let head = if found.is_some() {
                String::from_str("Unexpected token in input")
            } else {
                String::from_str("Unexpected end of input")
            };
            let list = if expected.len() == 0 {
                String::from_str("something else")
            } else {
                join(expected)
            };
            let message = head.concat(", expected ").concat(list.as_str());
            let label = Label {
                start: *start,
                end: *end,
                message: String::from_str("Unexpected token ").concat(
                    found_string(*found).as_str(),
                ),
                primary: true,
            };
            let labels = vec![label];
            assert(labels_view(labels@) =~= labels_spec(*e));
            Report { offset: *start, message, labels }
        },
        ParseError::MismatchedClose { start, end, expected, found } => {
            let message = String::from_str("Closing tag ").concat(found.as_str()).concat(
                " does not match the open element ",
            ).concat(expected.as_str());
            let label = Label {
                start: *start,
                end: *end,
                message: String::from_str("Expected </").concat(expected.as_str()).concat(">"),
                primary: true,
            };
            let labels = vec![label];
            assert(labels_view(labels@) =~= labels_spec(*e));
            Report { offset: *start, message, labels }
        },
        ParseError::Custom { start, end, message } => {
            let label = Label { start: *start, end: *end, message: message.clone(), primary: true };
            let labels = vec![label];
            assert(labels_view(labels@) =~= labels_spec(*e));
            Report { offset: *start, message: message.clone(), labels }
        },
    }
}

} // verus!
