use sao2::diagnostic::{Diagnostic, Diagnostics, Warnings};
use sao2::driver::{
    finish_build, report_compile_failure, Action, CompileError, CompileFailure, Event,
};
use sao2::program::{program_status, run};
use sao2::source::{SourceFile, Span};

#[test]
fn warnings_are_rendered_before_downstream_compilation_and_do_not_fail() {
    let source = SourceFile::new("test.sao2".to_owned(), "fn main() {}".to_owned());
    let mut warnings = Warnings::new();
    warnings.push(Diagnostic::source_warning(
        &source,
        Span::empty(0),
        "synthetic warning",
    ));
    let first = finish_build(Event::Generated { warnings }, false, false);
    assert!(first.standard_error.contains("source warning"));
    assert!(first.standard_error.contains("synthetic warning"));
    assert!(matches!(first.action, Action::Compile));
    let last = finish_build(
        Event::Built {
            outcome: Ok("unused-program".to_owned()),
        },
        false,
        false,
    );
    assert!(matches!(last.action, Action::Finish { code: 0 }));
}

#[test]
fn warnings_are_rendered_before_a_compile_failure_without_changing_its_status() {
    let source = SourceFile::new("test.sao2".to_owned(), "fn main() {}".to_owned());
    let mut warnings = Warnings::new();
    warnings.push(Diagnostic::source_warning(
        &source,
        Span::empty(0),
        "unreachable source",
    ));
    let mut rendered = String::new();
    let status = report_compile_failure(
        &CompileFailure {
            error: CompileError::Diagnostic(Diagnostic::compiler("backend failed")),
            warnings,
        },
        &mut rendered,
    );
    assert!(rendered.find("source warning").unwrap() < rendered.find("compiler error").unwrap());
    assert_eq!(status, 1);
}

fn quiet(text: &str) -> bool {
    text.is_empty()
}

#[test]
fn shows_the_generated_file_before_compiling_it() {
    let first = finish_build(Event::Generated { warnings: Warnings::new() }, true, false);
    assert!(quiet(&first.standard_output) && quiet(&first.standard_error));
    assert!(matches!(first.action, Action::Show));
    let shown = finish_build(Event::Shown { generated: "a.c".to_owned(), failure: None }, true, false);
    assert!(quiet(&shown.standard_output) && quiet(&shown.standard_error));
    assert!(matches!(shown.action, Action::Compile));
    let unseen = finish_build(
        Event::Shown { generated: "a.c".to_owned(), failure: Some("denied".to_owned()) },
        true,
        false,
    );
    assert!(unseen.standard_error.contains("cannot display generated C file 'a.c': denied"));
    assert!(unseen.standard_error.ends_with('\n'));
    assert!(matches!(unseen.action, Action::Finish { code: 1 }));
}

#[test]
fn names_the_executable_or_runs_it() {
    let built = finish_build(Event::Built { outcome: Ok("a.out".to_owned()) }, false, false);
    assert_eq!(built.standard_output, "built a.out\n");
    assert!(matches!(built.action, Action::Finish { code: 0 }));
    let running = finish_build(Event::Built { outcome: Ok("a.out".to_owned()) }, false, true);
    assert!(quiet(&running.standard_output));
    assert!(matches!(running.action, Action::Run { executable } if executable == "a.out"));
    let broken = finish_build(Event::Built { outcome: Err(Diagnostic::compiler("no compiler")) }, false, true);
    assert!(broken.standard_error.contains("no compiler"));
    assert!(matches!(broken.action, Action::Finish { code: 1 }));
}

#[test]
fn ends_with_the_status_of_the_program() {
    let ran = finish_build(Event::Ran { outcome: program_status("a.out", Some(42)) }, false, true);
    assert!(matches!(ran.action, Action::Finish { code: 42 }));
    let killed = program_status("a.out", None).unwrap_err();
    assert!(killed.to_string().contains("executable 'a.out' terminated without an exit code"));
    let code = killed.exit_code();
    let ended = finish_build(Event::Ran { outcome: Err(killed) }, false, true);
    assert!(matches!(ended.action, Action::Finish { code: last } if last == code));
}

#[test]
fn several_diagnostics_are_shown_in_source_order() {
    let source = SourceFile::new("test.sao2".to_owned(), "fn main() {}".to_owned());
    let mut diagnostics = Diagnostics::new();
    diagnostics.push(Diagnostic::source(&source, Span::empty(5), "second"));
    diagnostics.push(Diagnostic::source(&source, Span::empty(1), "first"));
    let error = CompileError::Diagnostics(diagnostics);
    let text = error.to_string();
    assert!(text.find("first").unwrap() < text.find("second").unwrap());
    assert_eq!(error.exit_code(), 1);
}

#[test]
fn reports_launch_failures_as_program_errors() {
    let missing = run("missing-sao2-program-7", Err("not found".to_owned())).unwrap_err();
    let text = missing.to_string();
    assert!(text.contains("program error"), "{text}");
    assert!(text.contains("failed to start executable 'missing-sao2-program-7': not found"), "{text}");
    assert_eq!(missing.exit_code(), 1);
    assert_eq!(run("a.out", Ok(Some(0))).unwrap(), 0);
    assert_eq!(run("a.out", Ok(Some(-3))).unwrap(), -3);
    assert!(run("a.out", Ok(None)).unwrap_err().to_string().contains("terminated without an exit code"));
}
