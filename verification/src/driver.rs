//! What the command line driver does with the results of a compilation.

use crate::diagnostic::{
    Diagnostic, DiagnosticView, Diagnostics, Warnings, compiler_error, in_source_order, rendered, rendered_all,
    status,
};
use vstd::prelude::*;
use vstd::string::*;

verus! {

/// Why a program was not compiled.
pub enum CompileError {
    Diagnostic(Diagnostic),
    Diagnostics(Diagnostics),
}

impl CompileError {
    /// How the error is shown.
    pub open spec fn text(&self) -> Seq<char> {
        match self {
            CompileError::Diagnostic(diagnostic) => rendered(diagnostic@),
            CompileError::Diagnostics(diagnostics) => rendered_all(in_source_order(diagnostics@)),
        }
    }

    /// The status that the driver ends with.
    pub open spec fn code(&self) -> i32 {
        match self {
            CompileError::Diagnostic(diagnostic) => status(diagnostic@.kind),
            CompileError::Diagnostics(_) => 1,
        }
    }

    pub fn to_string(&self) -> (result: String)
        ensures
            result@ == self.text(),
    {
        match self {
            CompileError::Diagnostic(diagnostic) => diagnostic.to_string(),
            CompileError::Diagnostics(diagnostics) => diagnostics.to_string(),
        }
    }

    pub fn exit_code(&self) -> (result: i32)
        ensures
            result == self.code(),
    {
        match self {
            CompileError::Diagnostic(diagnostic) => diagnostic.exit_code(),
            CompileError::Diagnostics(_) => 1,
        }
    }
}

/// A compilation that failed, with the warnings that came before.
pub struct CompileFailure {
    pub error: CompileError,
    pub warnings: Warnings,
}

/// What is printed of warnings: nothing where there are none.
pub open spec fn warning_text(warnings: Seq<DiagnosticView>) -> Seq<char> {
    if warnings.len() == 0 {
        seq![]
    } else {
        rendered_all(in_source_order(warnings)) + "\n"@
    }
}

fn report_warnings(warnings: &Warnings, standard_error: &mut String)
    ensures
        final(standard_error)@ == old(standard_error)@ + warning_text(warnings@),
{
    if !warnings.is_empty() {
        standard_error.append(warnings.to_string().as_str());
        standard_error.append("\n");
        assert(standard_error@ =~= old(standard_error)@ + warning_text(warnings@));
    } else {
        assert(standard_error@ =~= old(standard_error)@ + warning_text(warnings@));
    }
}

/// Reports a failed compilation: the warnings, then the error, which alone decides the status.
pub fn report_compile_failure(failure: &CompileFailure, standard_error: &mut String) -> (result: i32)
    ensures
        final(standard_error)@ == old(standard_error)@ + warning_text(failure.warnings@) + failure.error.text() + "\n"@,
        result == failure.error.code(),
{
    report_warnings(&failure.warnings, standard_error);
    standard_error.append(failure.error.to_string().as_str());
    standard_error.append("\n");
    failure.error.exit_code()
}

/// What the driver does next.
pub enum Action {
    /// Show the generated C file.
    Show,
    /// Hand the generated C file to the host's compiler.
    Compile,
    /// Run the executable.
    Run { executable: String },
    /// End with the status.
    Finish { code: i32 },
}

/// What the driver did.
pub enum Event {
    /// The program was compiled to C.
    Generated { warnings: Warnings },
    /// The generated C file was shown, or could not be read.
    Shown { generated: String, failure: Option<String> },
    /// The host's compiler made an executable, or failed.
    Built { outcome: Result<String, Diagnostic> },
    /// The executable ended, or could not be run.
    Ran { outcome: Result<i32, Diagnostic> },
}

/// What one step of the driver prints, and the action that it asks for.
pub struct Step {
    pub standard_output: String,
    pub standard_error: String,
    pub action: Action,
}

/// The contents of an action.
pub enum ActionView {
    Show,
    Compile,
    Run { executable: Seq<char> },
    Finish { code: i32 },
}

impl Action {
    pub open spec fn view(&self) -> ActionView {
        match self {
            Action::Show => ActionView::Show,
            Action::Compile => ActionView::Compile,
            Action::Run { executable } => ActionView::Run { executable: executable@ },
            Action::Finish { code } => ActionView::Finish { code: *code },
        }
    }
}

/// The contents of a step: what goes to the standard output and error, and the action.
pub struct StepView {
    pub standard_output: Seq<char>,
    pub standard_error: Seq<char>,
    pub action: ActionView,
}

impl Step {
    pub open spec fn view(&self) -> StepView {
        StepView {
            standard_output: self.standard_output@,
            standard_error: self.standard_error@,
            action: self.action@,
        }
    }
}

pub open spec fn quiet(action: ActionView) -> StepView {
    StepView { standard_output: seq![], standard_error: seq![], action }
}

/// The driver ends because of the diagnostic.
pub open spec fn failed_with(diagnostic: DiagnosticView) -> StepView {
    StepView {
        standard_output: seq![],
        standard_error: rendered(diagnostic) + "\n"@,
        action: ActionView::Finish { code: status(diagnostic.kind) },
    }
}

pub open spec fn cannot_display(generated: Seq<char>, failure: Seq<char>) -> Seq<char> {
    "cannot display generated C file '"@ + generated + "': "@ + failure
}

/// What follows an event. Warnings are printed before anything else is done, and do not change the
/// status.
pub open spec fn step_after(event: &Event, show_c: bool, requested_run: bool) -> StepView {
    match event {
        Event::Generated { warnings } => StepView {
            standard_output: seq![],
            standard_error: warning_text(warnings@),
            action: if show_c {
                ActionView::Show
            } else {
                ActionView::Compile
            },
        },
        Event::Shown { generated, failure } => match failure {
            None => quiet(ActionView::Compile),
            Some(failure) => failed_with(compiler_error(cannot_display(generated@, failure@))),
        },
        Event::Built { outcome } => match outcome {
            Ok(executable) => if requested_run {
                quiet(ActionView::Run { executable: executable@ })
            } else {
                StepView {
                    standard_output: "built "@ + executable@ + "\n"@,
                    standard_error: seq![],
                    action: ActionView::Finish { code: 0 },
                }
            },
            Err(diagnostic) => failed_with(diagnostic@),
        },
        Event::Ran { outcome } => match outcome {
            Ok(code) => quiet(ActionView::Finish { code: *code }),
            Err(diagnostic) => failed_with(diagnostic@),
        },
    }
}

fn silent(action: Action) -> (result: Step)
    ensures
        result@ == quiet(action@),
{
    let step = Step { standard_output: String::new(), standard_error: String::new(), action };
    assert(step@.standard_output =~= seq![]);
    assert(step@.standard_error =~= seq![]);
    step
}

fn stop(diagnostic: &Diagnostic) -> (result: Step)
    ensures
        result@ == failed_with(diagnostic@),
{
    let mut text = diagnostic.to_string();
    text.append("\n");
    let step = Step {
        standard_output: String::new(),
        standard_error: text,
        action: Action::Finish { code: diagnostic.exit_code() },
    };
    assert(step@.standard_output =~= seq![]);
    step
}

/// The next step of a build whose program has been compiled to C.
pub fn finish_build(event: Event, show_c: bool, requested_run: bool) -> (result: Step)
    ensures
        result@ == step_after(&event, show_c, requested_run),
{
    match &event {
        Event::Generated { warnings } => {
            let mut text = String::new();
            report_warnings(warnings, &mut text);
            assert(text@ =~= warning_text(warnings@));
            let action = if show_c {
                Action::Show
            } else {
                Action::Compile
            };
            let step = Step { standard_output: String::new(), standard_error: text, action };
            assert(step@.standard_output =~= seq![]);
            step
        },
        Event::Shown { generated, failure } => match failure {
            None => silent(Action::Compile),
            Some(failure) => {
                let mut message = "cannot display generated C file '".to_owned();
                message.append(generated.as_str());
                message.append("': ");
                message.append(failure.as_str());
                stop(&Diagnostic::compiler(message))
            },
        },
        Event::Built { outcome } => match outcome {
            Ok(executable) => if requested_run {
                silent(Action::Run { executable: executable.as_str().to_owned() })
            } else {
                let mut text = "built ".to_owned();
                text.append(executable.as_str());
                text.append("\n");
                let step = Step {
                    standard_output: text,
                    standard_error: String::new(),
                    action: Action::Finish { code: 0 },
                };
                assert(step@.standard_error =~= seq![]);
                step
            },
            Err(diagnostic) => stop(diagnostic),
        },
        Event::Ran { outcome } => match outcome {
            Ok(code) => silent(Action::Finish { code: *code }),
            Err(diagnostic) => stop(diagnostic),
        },
    }
}

/// Warnings change nothing but what is printed: with any warnings, the driver goes on to the same
/// action, which is not the end.
pub proof fn law_warnings_do_not_decide(left: Warnings, right: Warnings, show_c: bool, requested_run: bool)
    ensures
        step_after(&Event::Generated { warnings: left }, show_c, requested_run).action == step_after(
            &Event::Generated { warnings: right },
            show_c,
            requested_run,
        ).action,
        !(step_after(&Event::Generated { warnings: left }, show_c, requested_run).action is Finish),
{
}

} // verus!
