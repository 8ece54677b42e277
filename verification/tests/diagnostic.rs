use sao2::diagnostic::{Diagnostic, Diagnostics, Warnings, MAX_SOURCE_ERRORS, MAX_SOURCE_WARNINGS};
use sao2::source::{SourceFile, Span};

fn source(text: &str) -> SourceFile {
    SourceFile::new("test.sao2".to_owned(), text.to_owned())
}

#[test]
fn source_diagnostic_renders_location_line_and_span_caret() {
    let source = source("first\n\tbad input");
    let diagnostic = Diagnostic::source(&source, Span::new(7, 10), "expected expression");
    assert_eq!(diagnostic.primary_span(), Some(Span::new(7, 10)));
    assert_eq!(
        diagnostic.to_string(),
        "sao2: source error: test.sao2:2:5: expected expression\n  |\n2 |     bad input\n  |     ^^^"
    );
}

#[test]
fn diagnostics_are_bounded_and_sorted_by_primary_span() {
    let source = source("0123456789");
    let mut diagnostics = Diagnostics::new();
    for offset in (0..25).rev() {
        diagnostics.push(Diagnostic::source(
            &source,
            Span::empty(offset.min(10)),
            format!("error {offset}"),
        ));
    }
    assert!(diagnostics.is_full());
    assert_eq!(diagnostics.len(), MAX_SOURCE_ERRORS);
    let diagnostics = diagnostics.into_sorted();
    assert!(
        diagnostics
            .windows(2)
            .all(|pair| pair[0].primary_span().unwrap().start
                <= pair[1].primary_span().unwrap().start)
    );
}

#[test]
fn preserves_non_source_categories() {
    assert_eq!(Diagnostic::usage("bad command").exit_code(), 2);
    assert_eq!(Diagnostic::input("bad input").exit_code(), 1);
    assert_eq!(Diagnostic::compiler("bug").exit_code(), 1);
    assert_eq!(Diagnostic::program("failed").exit_code(), 1);
}

#[test]
fn diagnostic_collection_renders_in_source_order() {
    let source = source("one two");
    let mut diagnostics = Diagnostics::new();
    diagnostics.push(Diagnostic::source(&source, Span::new(4, 7), "second"));
    diagnostics.push(Diagnostic::source(&source, Span::new(0, 3), "first"));

    let rendered = diagnostics.to_string();
    assert!(rendered.find("first").unwrap() < rendered.find("second").unwrap());
}

#[test]
fn source_warning_uses_the_source_excerpt_renderer() {
    let source = source("first\n\tunused");
    let warning = Diagnostic::source_warning(&source, Span::new(7, 13), "unreachable source");
    assert_eq!(
        warning.to_string(),
        "sao2: source warning: test.sao2:2:5: unreachable source\n  |\n2 |     unused\n  |     ^^^^^^"
    );
    assert_eq!(warning.exit_code(), 0);
}

#[test]
fn related_annotations_render_in_insertion_order_without_affecting_exit_code() {
    let source = source("first\nsecond");
    let diagnostic = Diagnostic::source(&source, Span::new(6, 12), "later declaration")
        .with_related(&source, Span::new(0, 5), "previous declaration is here")
        .related(&source, Span::empty(12), "another related location");
    assert_eq!(diagnostic.exit_code(), 1);
    assert_eq!(
        diagnostic.to_string(),
        "sao2: source error: test.sao2:2:1: later declaration\n  |\n2 | second\n  | ^^^^^^\n  = related: test.sao2:1:1: previous declaration is here\n  |\n1 | first\n  | ^^^^^\n  = related: test.sao2:2:7: another related location\n  |\n2 | second\n  |       ^"
    );
}

#[test]
fn source_annotations_own_their_rendering_snapshot() {
    let diagnostic = {
        let source = SourceFile::new(
            "directory/name with punctuation!.sao2".to_owned(),
            "value".to_owned(),
        );
        Diagnostic::source(&source, Span::new(0, 5), "bad value")
    };
    assert!(diagnostic.to_string().contains("name with punctuation!.sao2:1:1"));
    assert!(diagnostic.to_string().contains("1 | value"));
}

#[test]
fn errors_and_warnings_have_independent_limits_and_stable_ordering() {
    let source = source("0123456789");
    let mut errors = Diagnostics::new();
    let mut warnings = Warnings::new();
    for index in 0..25 {
        errors.push(Diagnostic::source(&source, Span::empty(5), format!("error {index}")));
        warnings.push(Diagnostic::source_warning(
            &source,
            Span::empty(5),
            format!("warning {index}"),
        ));
    }
    assert!(errors.is_full());
    assert!(warnings.is_full());
    assert_eq!(errors.len(), MAX_SOURCE_ERRORS);
    assert_eq!(warnings.len(), MAX_SOURCE_WARNINGS);
    let errors = errors.into_sorted();
    let warnings = warnings.into_sorted();
    assert!(errors[0].to_string().contains("error 0"));
    assert!(errors[19].to_string().contains("error 19"));
    assert!(warnings[0].to_string().contains("warning 0"));
    assert!(warnings[19].to_string().contains("warning 19"));
}

#[test]
fn warning_collection_renders_in_source_order() {
    let source = source("one two");
    let mut warnings = Warnings::new();
    warnings.push(Diagnostic::source_warning(
        &source,
        Span::new(4, 7),
        "second",
    ));
    warnings.push(Diagnostic::source_warning(
        &source,
        Span::new(0, 3),
        "first",
    ));

    let rendered = warnings.to_string();
    assert!(rendered.find("first").unwrap() < rendered.find("second").unwrap());
}
