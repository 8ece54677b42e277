//! The function that a program starts in.

use crate::analysis::{
    Analysis, FunctionSignature, ResolvedType, TypeState, function_named, primitive_type, unit_type,
};
use crate::ast::PrimitiveType;
use crate::diagnostic::{Diagnostic, DiagnosticView, Diagnostics, MAX_SOURCE_ERRORS, reported, source_error};
use crate::semantic::EntryPoint;
use crate::source::{SourceFile, Span};
use vstd::prelude::*;
use vstd::utf8::*;

verus! {

/// Whether a span of a source reads as the given text.
pub open spec fn spells(source: &SourceFile, span: Span, text: Seq<char>) -> bool {
    span.start <= span.end <= source.bytes().len() && source.bytes().subrange(span.start as int, span.end as int)
        == encode_utf8(text)
}

pub fn reads_as(source: &SourceFile, span: Span, text: &str) -> (result: bool)
    ensures
        result == spells(source, span, text@),
{
    let bytes = source.text.as_str().as_bytes();
    let wanted = text.as_bytes();
    if span.start > span.end || span.end > bytes.len() {
        return false;
    }
    if span.end - span.start != wanted.len() {
        return false;
    }
    let mut index: usize = 0;
    while index < wanted.len()
        invariant
            span.start <= span.end <= bytes@.len(),
            bytes@ == source.bytes(),
            wanted@ == encode_utf8(text@),
            span.end - span.start == wanted@.len(),
            index <= wanted@.len(),
            forall|i: int| 0 <= i < index ==> bytes@[span.start + i] == #[trigger] wanted@[i],
        decreases wanted@.len() - index,
    {
        if bytes[span.start + index] != wanted[index] {
            assert(source.bytes().subrange(span.start as int, span.end as int)[index as int]
                != encode_utf8(text@)[index as int]);
            return false;
        }
        index += 1;
    }
    assert(source.bytes().subrange(span.start as int, span.end as int) =~= encode_utf8(text@));
    true
}

/// Whether a type is the list of strings.
pub open spec fn list_of_strings(analysis: &Analysis, state: TypeState) -> bool {
    state matches TypeState::Resolved(ty) && ty.0 < analysis.types.entries@.len()
        && analysis.types.entries@[ty.0 as int] == ResolvedType::List(primitive_type(PrimitiveType::Str))
}

/// A signature that a program may start with: no parameter or one list of strings that is called `args` and
/// is not mutable, and the unit type or an integer as the result.
pub open spec fn starts(analysis: &Analysis, signature: FunctionSignature) -> bool {
    let parameters = signature.parameters@;
    &&& parameters.len() == 0 || (parameters.len() == 1 && !parameters[0].node.mutable && spells(
        analysis.source,
        parameters[0].node.name.span,
        "args"@,
    ) && list_of_strings(analysis, parameters[0].ty))
    &&& signature.result == TypeState::Resolved(unit_type()) || signature.result == TypeState::Resolved(
        primitive_type(PrimitiveType::Int),
    )
}

pub fn valid_main_signature(analysis: &Analysis, signature: &FunctionSignature) -> (result: bool)
    ensures
        result == starts(analysis, *signature),
{
    let parameters_valid = if signature.parameters.len() == 0 {
        true
    } else if signature.parameters.len() == 1 {
        let parameter = &signature.parameters[0];
        let strings = match parameter.ty {
            TypeState::Resolved(ty) => if analysis.types.contains(ty) {
                match analysis.types.get(ty) {
                    ResolvedType::List(element) => *element == analysis.types.primitive(PrimitiveType::Str),
                    _ => false,
                }
            } else {
                false
            },
            _ => false,
        };
        !parameter.node.mutable && reads_as(analysis.source, parameter.node.name.span, "args") && strings
    } else {
        false
    };
    let result_valid = signature.result == TypeState::Resolved(analysis.types.unit()) || signature.result
        == TypeState::Resolved(analysis.types.primitive(PrimitiveType::Int));
    parameters_valid && result_valid
}

/// A signature whose types are settled.
pub open spec fn signature_resolved(signature: FunctionSignature) -> bool {
    &&& forall|i: int|
        0 <= i < signature.parameters@.len() ==> (#[trigger] signature.parameters@[i]).ty is Resolved
    &&& signature.result is Resolved
}

/// The fault of a program without a function that it can start in.
pub open spec fn entry_fault(analysis: &Analysis) -> Option<DiagnosticView> {
    match function_named(analysis.function_names@, "main"@, 0) {
        None => Some(
            source_error(
                analysis.source,
                Span {
                    start: analysis.source.bytes().len() as usize,
                    end: analysis.source.bytes().len() as usize,
                    tree: 0,
                },
                "executable program requires one 'main' function"@,
            ),
        ),
        Some(function) => {
            let signature = analysis.function_signatures@[function.0 as int];
            if starts(analysis, signature) {
                None
            } else {
                Some(
                    source_error(
                        analysis.source,
                        signature.node.name.span,
                        "invalid 'main' signature; expected main(), main() int, main(args [str]), or main(args [str]) int"@,
                    ),
                )
            }
        },
    }
}

/// Finds the function that a program starts in, or reports why it has none.
pub fn entry_point(analysis: &Analysis, diagnostics: &mut Diagnostics) -> (result: Option<EntryPoint>)
    requires
        analysis.source.wf(),
        old(diagnostics).wf(),
        function_named(analysis.function_names@, "main"@, 0) matches Some(function) ==> function.0
            < analysis.function_signatures@.len() && signature_resolved(
            analysis.function_signatures@[function.0 as int],
        ),
    ensures
        final(diagnostics).wf(),
        match entry_fault(analysis) {
            Some(fault) => result is None && final(diagnostics)@ == reported(
                old(diagnostics)@,
                fault,
                MAX_SOURCE_ERRORS as nat,
            ),
            None => result is Some && Some(result->0.function) == function_named(
                analysis.function_names@,
                "main"@,
                0,
            ) && final(diagnostics)@ == old(diagnostics)@,
        },
{
    match analysis.function_by_name("main") {
        None => {
            let end = analysis.source.text.as_str().as_bytes().len();
            diagnostics.push(
                Diagnostic::source(
                    analysis.source,
                    Span::empty(end),
                    "executable program requires one 'main' function",
                ),
            );
            None
        },
        Some(function) => {
            let signature = &analysis.function_signatures[function.0];
            if valid_main_signature(analysis, signature) {
                Some(EntryPoint { function })
            } else {
                diagnostics.push(
                    Diagnostic::source(
                        analysis.source,
                        signature.node.name.span,
                        "invalid 'main' signature; expected main(), main() int, main(args [str]), or main(args [str]) int",
                    ),
                );
                None
            }
        },
    }
}

} // verus!
