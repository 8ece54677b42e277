//! What comes of running an executable.

use crate::diagnostic::{Diagnostic, DiagnosticKind, plain};
use vstd::prelude::*;
use vstd::string::*;

verus! {

/// The error of an executable that could not be started.
pub fn start_failure(executable: &str, error: &str) -> (result: Diagnostic)
    ensures
        result@ == plain(
            DiagnosticKind::Program,
            "failed to start executable '"@ + executable@ + "': "@ + error@,
        ),
{
    let mut message = "failed to start executable '".to_owned();
    message.append(executable);
    message.append("': ");
    message.append(error);
    Diagnostic::program(message)
}

/// The status of an executable that ran: one that ended without a status is an error.
pub fn program_status(executable: &str, code: Option<i32>) -> (result: Result<i32, Diagnostic>)
    ensures
        match code {
            Some(code) => result == Ok::<i32, Diagnostic>(code),
            None => result is Err && result->Err_0@ == plain(
                DiagnosticKind::Program,
                "executable '"@ + executable@ + "' terminated without an exit code"@,
            ),
        },
{
    match code {
        Some(code) => Ok(code),
        None => {
            let mut message = "executable '".to_owned();
            message.append(executable);
            message.append("' terminated without an exit code");
            Err(Diagnostic::program(message))
        },
    }
}

/// What running an executable comes to, given how the host says that it went: the status that it ended with, if it
/// had one, or why it could not be started.
pub fn run(executable: &str, outcome: Result<Option<i32>, String>) -> (result: Result<i32, Diagnostic>)
    ensures
        match outcome {
            Ok(Some(code)) => result == Ok::<i32, Diagnostic>(code),
            Ok(None) => result is Err && result->Err_0@ == plain(
                DiagnosticKind::Program,
                "executable '"@ + executable@ + "' terminated without an exit code"@,
            ),
            Err(error) => result is Err && result->Err_0@ == plain(
                DiagnosticKind::Program,
                "failed to start executable '"@ + executable@ + "': "@ + error@,
            ),
        },
{
    match outcome {
        Ok(code) => program_status(executable, code),
        Err(error) => Err(start_failure(executable, error.as_str())),
    }
}

} // verus!
