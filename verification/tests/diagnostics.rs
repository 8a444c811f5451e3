use concrete_driver::parser::error::{Diagnostic, Error, LexingError, Span};
use concrete_driver::parser::ProgramSource;

fn source() -> ProgramSource {
    ProgramSource::new(String::from("mod a { fn f() -> i32 { return 0; } }"), "src/main.ext")
}

#[test]
fn invalid_token_has_point_and_window() {
    let report = Diagnostic(Error::InvalidToken { location: 25 }).render(&source());
    assert_eq!(report.path, "src/main.ext");
    assert_eq!(report.code, "P1");
    assert_eq!(report.message, "Parse error.");
    assert_eq!(report.span, Span { start: 25, end: 25 });
    assert_eq!(report.labels.len(), 2);
    assert_eq!(report.labels[0].span, Span { start: 25, end: 26 });
    assert_eq!(report.labels[0].message, "invalid token");
    assert!(report.labels[0].colored);
    assert_eq!(report.labels[1].span, Span { start: 15, end: 35 });
    assert_eq!(report.labels[1].message, "There was a problem parsing part of this code.");
    assert!(!report.labels[1].colored);
    assert_eq!(report.note, None);
}

#[test]
fn window_is_cut_at_the_start_of_the_file() {
    let report = Diagnostic(Error::InvalidToken { location: 3 }).render(&source());
    assert_eq!(report.labels[1].span, Span { start: 0, end: 13 });
}

#[test]
fn unrecognized_eof_lists_what_was_expected() {
    let expected = vec![String::from("\"}\""), String::from("\"fn\""), String::from("\"mod\"")];
    let report = Diagnostic(Error::UnrecognizedEof { location: 40, expected }).render(&source());
    assert_eq!(report.code, "P2");
    assert_eq!(report.labels[0].message, "unrecognized eof");
    assert_eq!(report.labels[0].span, Span { start: 40, end: 41 });
    assert_eq!(report.labels[1].span, Span { start: 30, end: 50 });
    assert_eq!(
        report.note,
        Some(String::from("expected one of the following: \"}\", \"fn\", \"mod\""))
    );
}

#[test]
fn expected_note_of_one_and_of_none() {
    let one = Diagnostic(Error::UnrecognizedEof { location: 0, expected: vec![String::from("x")] })
        .render(&source());
    assert_eq!(one.note, Some(String::from("expected one of the following: x")));
    let none =
        Diagnostic(Error::UnrecognizedEof { location: 0, expected: vec![] }).render(&source());
    assert_eq!(none.note, Some(String::from("expected one of the following: ")));
}

#[test]
fn unrecognized_token_names_the_token() {
    let report = Diagnostic(Error::UnrecognizedToken {
        start: 12,
        token: String::from("Identifier(\"x\")"),
        end: 13,
        expected: vec![String::from("\"(\""), String::from("\";\"")],
    })
    .render(&source());
    assert_eq!(report.code, "3");
    assert_eq!(report.span, Span { start: 12, end: 13 });
    assert_eq!(report.labels[0].message, "unrecognized token 'Identifier(\"x\")'");
    assert_eq!(report.labels[0].span, Span { start: 12, end: 13 });
    assert_eq!(report.labels[1].span, Span { start: 2, end: 23 });
    assert_eq!(report.note, Some(String::from("expected one of the following: \"(\", \";\"")));
}

#[test]
fn extra_token_has_one_plain_label_and_no_note() {
    let report = Diagnostic(Error::ExtraToken { start: 5, token: String::from("Semicolon"), end: 6 })
        .render(&source());
    assert_eq!(report.code, "P3");
    assert_eq!(report.labels.len(), 1);
    assert_eq!(report.labels[0].message, "unexpected extra token Semicolon");
    assert!(!report.labels[0].colored);
    assert_eq!(report.note, None);
}

#[test]
fn lexical_failures_have_their_own_messages() {
    let number =
        Diagnostic(Error::User { error: LexingError::NumberParseError, start: 7, end: 30 })
            .render(&source());
    assert_eq!(number.code, "4");
    assert_eq!(number.message, "Error parsing literal number");
    assert_eq!(number.labels.len(), 1);
    assert_eq!(number.labels[0].message, "error parsing literal number");
    assert_eq!(number.labels[0].span, Span { start: 7, end: 30 });
    let other = Diagnostic(Error::User { error: LexingError::Other, start: 1, end: 2 })
        .render(&source());
    assert_eq!(other.code, "5");
    assert_eq!(other.labels.len(), 1);
    assert_eq!(other.labels[0].span, Span { start: 1, end: 2 });
    assert_eq!(other.message, "Other error");
    assert_eq!(other.labels[0].message, "other error");
}

#[test]
fn rendering_twice_gives_the_same_report() {
    let failure = Error::UnrecognizedToken {
        start: 100,
        token: String::from("Plus"),
        end: 101,
        expected: vec![String::from("a"), String::from("b"), String::from("c")],
    };
    let first = Diagnostic(failure.clone()).render(&source());
    let second = Diagnostic(failure).render(&source());
    assert_eq!(first.code, second.code);
    assert_eq!(first.note, second.note);
    assert_eq!(first.labels.len(), second.labels.len());
    for i in 0..first.labels.len() {
        assert_eq!(first.labels[i].span, second.labels[i].span);
        assert_eq!(first.labels[i].message, second.labels[i].message);
    }
}

#[test]
fn window_past_the_last_offset_is_out_of_range() {
    assert!(Diagnostic(Error::InvalidToken { location: usize::MAX - 10 }).in_range());
    assert!(!Diagnostic(Error::InvalidToken { location: usize::MAX - 9 }).in_range());
    assert!(!Diagnostic(Error::ExtraToken { start: 0, token: String::new(), end: usize::MAX })
        .in_range());
}

#[test]
fn a_failure_out_of_range_has_no_report() {
    let far = Diagnostic(Error::InvalidToken { location: usize::MAX - 9 });
    assert_eq!(far.try_render(&source()), None);
    let near = Diagnostic(Error::InvalidToken { location: usize::MAX - 10 });
    let report = near.try_render(&source()).unwrap();
    assert_eq!(report.labels[0].span, Span { start: usize::MAX - 10, end: usize::MAX - 9 });
    assert_eq!(report.labels[1].span, Span { start: usize::MAX - 20, end: usize::MAX });
    assert_eq!(Some(near.render(&source())), near.try_render(&source()));
}

#[test]
fn every_kind_of_failure_has_a_code_of_its_own() {
    let failures = vec![
        Error::InvalidToken { location: 1 },
        Error::UnrecognizedEof { location: 1, expected: vec![] },
        Error::UnrecognizedToken { start: 1, token: String::from("t"), end: 2, expected: vec![] },
        Error::ExtraToken { start: 1, token: String::from("t"), end: 2 },
        Error::User { error: LexingError::NumberParseError, start: 1, end: 2 },
        Error::User { error: LexingError::Other, start: 1, end: 2 },
    ];
    let codes: Vec<String> =
        failures.into_iter().map(|failure| Diagnostic(failure).render(&source()).code).collect();
    assert_eq!(codes, vec!["P1", "P2", "3", "P3", "4", "5"]);
    for i in 0..codes.len() {
        for j in 0..i {
            assert_ne!(codes[i], codes[j]);
        }
    }
}
