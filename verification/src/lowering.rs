//! Control-flow lowering from the validated front-end handoff to the intermediate representation.
//!
//! `model` says what is built and by which steps, `rules` and `translation` what each part of a program
//! becomes, and `assembly` how a whole program is put together. `contents` shows that validation looks at nothing
//! but what a program holds, and `laws` what lowering keeps.

pub mod assembly;
pub mod body;
pub mod builder;
pub mod contents;
pub mod control;
pub mod frame;
pub mod laws;
pub mod model;
pub mod presentation;
pub mod rules;
pub mod steps;
pub mod translation;

use crate::analysis::Analysis;
use crate::ir::Program;
use crate::ir::validation::program_check;
use crate::lowering::assembly::{assemble, assembled, program_view};
use crate::lowering::contents::{contents_check, lemma_contents_check};
use crate::semantic::SemanticResult;
use vstd::prelude::*;
use vstd::string::*;

verus! {

/// Lowering met facts that contradict one another.
#[derive(Debug)]
pub enum LoweringError {
    Invariant(String),
}

impl LoweringError {
    pub open spec fn message(&self) -> Seq<char> {
        match self {
            LoweringError::Invariant(message) => message@,
        }
    }

    pub fn to_string(&self) -> (result: String)
        ensures
            result@ == "IR lowering invariant violated: "@ + self.message(),
    {
        let mut text = "IR lowering invariant violated: ".to_owned();
        match self {
            LoweringError::Invariant(message) => text.append(message.as_str()),
        }
        text
    }
}

/// What lowering returns: the program that the facts stand for, which is valid, or the first fault.
pub open spec fn lowered<'a>(
    analysis: &'a Analysis<'a>,
    semantic: &'a SemanticResult,
    result: Result<Program, LoweringError>,
) -> bool {
    match assembled(analysis, semantic) {
        Err(fault) => result is Err && result->Err_0.message() == fault@,
        Ok(view) => match contents_check(view) {
            Ok(_) => result is Ok && program_view(result->Ok_0) == view && program_check(&result->Ok_0) is Ok,
            Err(error) => result is Err && result->Err_0.message() == error.text(),
        },
    }
}

/// Lowers a program whose facts have been accepted. What comes out is a valid program.
pub fn lower<'a>(analysis: &'a Analysis<'a>, semantic: &'a SemanticResult) -> (result: Result<Program, LoweringError>)
    requires
        analysis.source.wf(),
    ensures
        lowered(analysis, semantic, result),
{
    let program = match assemble(analysis, semantic) {
        Ok(program) => program,
        Err(fault) => return Err(LoweringError::Invariant(fault.to_owned())),
    };
    proof {
        lemma_contents_check(&program);
    }
    match program.validate() {
        Ok(_) => Ok(program),
        Err(error) => Err(LoweringError::Invariant(error.to_string())),
    }
}

} // verus!
