//! What lowering keeps of a program.

use crate::analysis::{
    Analysis, FunctionSignature, ResolvedType, TypeId as SourceType, UnionAlternative as SourceAlternative,
    payload_of,
};
use crate::ast::Block;
use crate::ir::{
    AlternativeView, DefinitionId, FunctionId, Program, TypeId, TypeView, first_index, lemma_first_index_found,
};
use crate::ir::rendering::program_text;
use crate::lowering::{LoweringError, lowered};
use crate::lowering::assembly::{
    ProgramView, Table, assembled, bodies_from, body_context, body_rule, component, constructor_of,
    definitions_from, filled_function, fresh, interned, layout_rule, made_of, no_types, parameters_from,
    payloads_from, program_view, shell, shells_from, start_rule, type_rule, types_from, with_nominals,
};
use crate::lowering::model::{Context, DefinitionView, FunctionView, State, entered, open_block};
use crate::lowering::presentation::law_text_is_of_contents;
use crate::lowering::rules::{flow_of, text_at};
use crate::lowering::translation::block_rule;
use crate::semantic::{FlowSubject, SemanticResult};
use crate::semantic::handoff::record_from;
use vstd::prelude::*;

verus! {

/// Each function stands for one signature, in the order of the signatures, and carries its name.
pub open spec fn named_as_declared(analysis: &Analysis, functions: Seq<FunctionView>) -> bool {
    &&& functions.len() == analysis.function_signatures@.len()
    &&& forall|i: int|
        0 <= i < functions.len() ==> (#[trigger] functions[i]).name == text_at(
            analysis.source,
            analysis.function_signatures@[i].node.name.span,
        )
}

/// Each definition stands for one declared type, in the order of the declarations, and carries its name.
pub open spec fn defined_as_declared(analysis: &Analysis, definitions: Seq<DefinitionView>) -> bool {
    &&& definitions.len() == analysis.type_definitions@.len()
    &&& forall|i: int|
        0 <= i < definitions.len() ==> (#[trigger] definitions[i]).name == text_at(
            analysis.source,
            analysis.type_definitions@[i].node.name.span,
        )
}

/// The type of a definition.
pub open spec fn nominal(index: int) -> TypeView {
    TypeView::Nominal(DefinitionId(index as usize))
}

/// No type is listed twice.
pub open spec fn listed_once(types: Seq<TypeView>) -> bool {
    forall|i: int, j: int| 0 <= i < j < types.len() ==> #[trigger] types[i] != #[trigger] types[j]
}

proof fn lemma_shells(analysis: &Analysis, types: Seq<Option<TypeId>>, from: int, done: Seq<FunctionView>)
    requires
        0 <= from == done.len() <= analysis.function_signatures@.len(),
        forall|i: int|
            0 <= i < done.len() ==> (#[trigger] done[i]).name == text_at(
                analysis.source,
                analysis.function_signatures@[i].node.name.span,
            ),
        shells_from(analysis, types, from, done) is Ok,
    ensures
        named_as_declared(analysis, shells_from(analysis, types, from, done)->Ok_0),
    decreases analysis.function_signatures@.len() - from,
{
    if from < analysis.function_signatures@.len() {
        let signature = analysis.function_signatures@[from];
        let ty = component(types, signature.result->Resolved_0)->Ok_0;
        let name = text_at(analysis.source, signature.node.name.span);
        lemma_shells(analysis, types, from + 1, done.push(shell(name, ty)));
    }
}

proof fn lemma_definitions(analysis: &Analysis, types: Seq<Option<TypeId>>, from: int, done: Seq<DefinitionView>)
    requires
        0 <= from == done.len() <= analysis.type_definitions@.len(),
        forall|i: int|
            0 <= i < done.len() ==> (#[trigger] done[i]).name == text_at(
                analysis.source,
                analysis.type_definitions@[i].node.name.span,
            ),
        definitions_from(analysis, types, from, done) is Ok,
    ensures
        defined_as_declared(analysis, definitions_from(analysis, types, from, done)->Ok_0),
    decreases analysis.type_definitions@.len() - from,
{
    if from < analysis.type_definitions@.len() {
        let definition = analysis.type_definitions@[from];
        let layout = layout_rule(analysis, types, definition.kind)->Ok_0;
        let name = text_at(analysis.source, definition.node.name.span);
        lemma_definitions(analysis, types, from + 1, done.push(DefinitionView { name, layout }));
    }
}

proof fn lemma_bodies<'a>(
    analysis: &'a Analysis<'a>,
    semantic: &'a SemanticResult,
    types: Seq<Option<TypeId>>,
    program: ProgramView,
    from: int,
)
    requires
        0 <= from <= analysis.function_signatures@.len(),
        named_as_declared(analysis, program.functions),
        forall|i: int| 0 <= i < from ==> (#[trigger] program.functions[i]).entry is Some,
        bodies_from(analysis, semantic, types, program, from) is Ok,
    ensures
        ({
            let whole = bodies_from(analysis, semantic, types, program, from)->Ok_0;
            &&& named_as_declared(analysis, whole.functions)
            &&& forall|i: int| 0 <= i < whole.functions.len() ==> (#[trigger] whole.functions[i]).entry is Some
            &&& forall|i: int|
                0 <= i < whole.functions.len() ==> (#[trigger] whole.functions[i]).result
                    == program.functions[i].result
            &&& whole.filename == program.filename
            &&& whole.byte_len == program.byte_len
            &&& whole.types == program.types
            &&& whole.definitions == program.definitions
            &&& whole.entry == program.entry
        }),
    decreases analysis.function_signatures@.len() - from,
{
    if from < analysis.function_signatures@.len() {
        let signature = analysis.function_signatures@[from];
        let (s, start) = body_rule(
            body_context(analysis, semantic, types, program, signature.id),
            fresh(program.locations, program.failure_sites, analysis.bindings@.len()),
            signature,
        )->Ok_0;
        let next = ProgramView {
            functions: program.functions.update(
                from,
                filled_function(program.functions[from], s, start),
            ),
            locations: s.locations,
            failure_sites: s.failure_sites,
            ..program
        };
        lemma_bodies(analysis, semantic, types, next, from + 1);
    }
}

/// Lowering keeps the functions and the declared types of a program, each under its name and in its place, and
/// every function gets a body. The program starts where it was found to start.
pub proof fn law_lowering_keeps_declarations<'a>(analysis: &'a Analysis<'a>, semantic: &'a SemanticResult)
    requires
        assembled(analysis, semantic) is Ok,
    ensures
        named_as_declared(analysis, assembled(analysis, semantic)->Ok_0.functions),
        forall|i: int|
            0 <= i < assembled(analysis, semantic)->Ok_0.functions.len() ==> (#[trigger] assembled(
                analysis,
                semantic,
            )->Ok_0.functions[i]).entry is Some,
        defined_as_declared(analysis, assembled(analysis, semantic)->Ok_0.definitions),
        semantic.entry_point matches Some(entry) && assembled(analysis, semantic)->Ok_0.entry == Some(
            FunctionId(entry.function.0),
        ) && entry.function.0 < analysis.function_signatures@.len(),
        assembled(analysis, semantic)->Ok_0.filename == analysis.source.path@,
{
    let Table { types, mapped } = types_from(analysis, no_types(analysis), 0)->Ok_0;
    let definitions = definitions_from(analysis, mapped, 0, seq![])->Ok_0;
    let functions = shells_from(analysis, mapped, 0, seq![])->Ok_0;
    lemma_definitions(analysis, mapped, 0, seq![]);
    lemma_shells(analysis, mapped, 0, seq![]);
    let entry = FunctionId(semantic.entry_point->0.function.0);
    let program = ProgramView {
        filename: analysis.source.path@,
        byte_len: analysis.source.bytes().len() as usize,
        types: with_nominals(types, analysis.type_definitions@.len() as int),
        definitions,
        functions,
        entry: Some(entry),
        locations: seq![],
        failure_sites: seq![],
    };
    assert(assembled(analysis, semantic) == bodies_from(analysis, semantic, mapped, program, 0));
    lemma_bodies(analysis, semantic, mapped, program, 0);
}

proof fn lemma_interned(types: Seq<TypeView>, ty: TypeView)
    requires
        listed_once(types),
    ensures
        listed_once(interned(types, ty).0),
        interned(types, ty).0.contains(ty),
        forall|other: TypeView| types.contains(other) ==> interned(types, ty).0.contains(other),
{
    lemma_first_index_found(types, ty);
    let after = interned(types, ty).0;
    assert forall|other: TypeView| types.contains(other) implies after.contains(other) by {
        let i = choose|i: int| 0 <= i < types.len() && types[i] == other;
        assert(after[i] == other);
    }
    match first_index(types, ty) {
        Some(index) => {
            assert(after[index] == ty);
        },
        None => {
            assert(after[types.len() as int] == ty);
        },
    }
}

proof fn lemma_type(analysis: &Analysis, t: Table, ty: SourceType, depth: nat)
    requires
        listed_once(t.types),
    ensures
        type_rule(analysis, t, ty, depth) matches Ok((after, _)) ==> listed_once(after.types),
    decreases depth, 1nat, 0int,
{
    reveal_with_fuel(type_rule, 1);
    reveal_with_fuel(made_of, 1);
    reveal_with_fuel(payloads_from, 1);
    if ty.0 < analysis.types.entries@.len() && depth > 0 {
        let made = analysis.types.entries@[ty.0 as int];
        lemma_made_of(analysis, t, made, (depth - 1) as nat);
        if let Ok((after, view)) = made_of(analysis, t, made, (depth - 1) as nat) {
            lemma_interned(after.types, view);
        }
    }
}

proof fn lemma_made_of(analysis: &Analysis, t: Table, ty: ResolvedType, depth: nat)
    requires
        listed_once(t.types),
    ensures
        made_of(analysis, t, ty, depth) matches Ok((after, _)) ==> listed_once(after.types),
    decreases depth, 3nat, 0int,
{
    reveal_with_fuel(type_rule, 1);
    reveal_with_fuel(made_of, 1);
    reveal_with_fuel(payloads_from, 1);
    match ty {
        ResolvedType::List(element) => {
            lemma_type(analysis, t, element, depth);
        },
        ResolvedType::Mapping { key, value } => {
            lemma_type(analysis, t, key, depth);
            if let Ok((after, _)) = type_rule(analysis, t, key, depth) {
                lemma_type(analysis, after, value, depth);
            }
        },
        ResolvedType::Union(alternatives) => {
            lemma_payloads(analysis, t, alternatives@, 0, seq![], depth);
        },
        _ => {},
    }
}

proof fn lemma_payloads(
    analysis: &Analysis,
    t: Table,
    alternatives: Seq<SourceAlternative>,
    from: int,
    done: Seq<AlternativeView>,
    depth: nat,
)
    requires
        listed_once(t.types),
        0 <= from,
    ensures
        payloads_from(analysis, t, alternatives, from, done, depth) matches Ok((after, _)) ==> listed_once(
            after.types,
        ),
    decreases depth, 2nat, alternatives.len() - from,
{
    reveal_with_fuel(type_rule, 1);
    reveal_with_fuel(made_of, 1);
    reveal_with_fuel(payloads_from, 1);
    if from < alternatives.len() {
        let ty = payload_of(alternatives[from]@);
        lemma_type(analysis, t, ty, depth);
        if let Ok((after, payload)) = type_rule(analysis, t, ty, depth) {
            let next = done.push(AlternativeView { constructor: constructor_of(alternatives[from]@), payload });
            lemma_payloads(analysis, after, alternatives, from + 1, next, depth);
        }
    }
}

proof fn lemma_types(analysis: &Analysis, t: Table, from: int)
    requires
        0 <= from,
        listed_once(t.types),
        types_from(analysis, t, from) is Ok,
    ensures
        listed_once(types_from(analysis, t, from)->Ok_0.types),
    decreases analysis.types.entries@.len() - from,
{
    if from < analysis.types.entries@.len() {
        let ty = SourceType(from as usize);
        lemma_type(analysis, t, ty, analysis.types.entries@.len());
        lemma_types(analysis, type_rule(analysis, t, ty, analysis.types.entries@.len())->Ok_0.0, from + 1);
    }
}

proof fn lemma_nominals(types: Seq<TypeView>, count: int)
    requires
        listed_once(types),
        0 <= count,
    ensures
        listed_once(with_nominals(types, count)),
        forall|i: int|
            0 <= i < count ==> with_nominals(types, count).contains(#[trigger] nominal(i)),
    decreases count,
{
    if count > 0 {
        lemma_nominals(types, count - 1);
        lemma_interned(with_nominals(types, count - 1), nominal(count - 1));
    }
}

/// A lowered program lists no type twice, and it lists the type of each of its definitions.
pub proof fn law_lowered_types_are_canonical<'a>(analysis: &'a Analysis<'a>, semantic: &'a SemanticResult)
    requires
        assembled(analysis, semantic) is Ok,
    ensures
        listed_once(assembled(analysis, semantic)->Ok_0.types),
        forall|i: int|
            0 <= i < assembled(analysis, semantic)->Ok_0.definitions.len() ==> assembled(
                analysis,
                semantic,
            )->Ok_0.types.contains(#[trigger] nominal(i)),
{
    let Table { types, mapped } = types_from(analysis, no_types(analysis), 0)->Ok_0;
    let definitions = definitions_from(analysis, mapped, 0, seq![])->Ok_0;
    let functions = shells_from(analysis, mapped, 0, seq![])->Ok_0;
    lemma_definitions(analysis, mapped, 0, seq![]);
    lemma_shells(analysis, mapped, 0, seq![]);
    lemma_types(analysis, no_types(analysis), 0);
    lemma_nominals(types, analysis.type_definitions@.len() as int);
    let program = ProgramView {
        filename: analysis.source.path@,
        byte_len: analysis.source.bytes().len() as usize,
        types: with_nominals(types, analysis.type_definitions@.len() as int),
        definitions,
        functions,
        entry: Some(FunctionId(semantic.entry_point->0.function.0)),
        locations: seq![],
        failure_sites: seq![],
    };
    assert(assembled(analysis, semantic) == bodies_from(analysis, semantic, mapped, program, 0));
    lemma_bodies(analysis, semantic, mapped, program, 0);
}

/// Lowering the same facts again gives a program with the same contents and the same text form, or the same fault.
pub proof fn law_lowering_is_deterministic<'a>(
    analysis: &'a Analysis<'a>,
    semantic: &'a SemanticResult,
    left: Result<Program, LoweringError>,
    right: Result<Program, LoweringError>,
)
    requires
        lowered(analysis, semantic, left),
        lowered(analysis, semantic, right),
    ensures
        match (left, right) {
            (Ok(left), Ok(right)) => program_view(left) == program_view(right) && program_text(&left)
                == program_text(&right),
            (Err(left), Err(right)) => left.message() == right.message(),
            _ => false,
        },
{
    if let (Ok(left), Ok(right)) = (left, right) {
        law_text_is_of_contents(&left, &right);
    }
}

proof fn lemma_no_flow(c: Context, s: State, block: &Block)
    requires
        c.semantic.flow.summaries@.len() == 0,
    ensures
        block_rule(c, s, block) is Err,
{
    reveal(flow_of);
    let fault = "block does not have exactly one flow summary";
    assert(record_from(c.semantic.flow.summaries@, FlowSubject::Block(block.span), 0) is None);
    assert(flow_of(c, FlowSubject::Block(block.span), fault) is Err);
}

proof fn lemma_no_body(c: Context, s: State, signature: FunctionSignature)
    requires
        c.semantic.flow.summaries@.len() == 0,
    ensures
        body_rule(c, s, signature) is Err,
{
    if let Ok((s, _)) = parameters_from(c, s, signature.parameters@, 0) {
        let (s, start) = open_block(s);
        lemma_no_flow(c, entered(s, start), &signature.node.body);
    }
}

/// Facts without flow summaries do not stand for a program: lowering refuses them.
pub proof fn law_lowering_needs_flow<'a>(
    analysis: &'a Analysis<'a>,
    semantic: &'a SemanticResult,
    result: Result<Program, LoweringError>,
)
    requires
        semantic.flow.summaries@.len() == 0,
        lowered(analysis, semantic, result),
    ensures
        result is Err,
{
    if let Ok(Table { types, mapped }) = types_from(analysis, no_types(analysis), 0) {
        if let Ok(definitions) = definitions_from(analysis, mapped, 0, seq![]) {
            if let Ok(functions) = shells_from(analysis, mapped, 0, seq![]) {
                if let Ok(entry) = start_rule(analysis, semantic) {
                    let program = ProgramView {
                        filename: analysis.source.path@,
                        byte_len: analysis.source.bytes().len() as usize,
                        types: with_nominals(types, analysis.type_definitions@.len() as int),
                        definitions,
                        functions,
                        entry: Some(entry),
                        locations: seq![],
                        failure_sites: seq![],
                    };
                    assert(assembled(analysis, semantic) == bodies_from(analysis, semantic, mapped, program, 0));
                    let signature = analysis.function_signatures@[0];
                    lemma_no_body(
                        body_context(analysis, semantic, mapped, program, signature.id),
                        fresh(program.locations, program.failure_sites, analysis.bindings@.len()),
                        signature,
                    );
                    assert(bodies_from(analysis, semantic, mapped, program, 0) is Err);
                }
            }
        }
    }
}

/// Whether a type ranks above one that it is made of, if that is listed.
pub open spec fn above(count: nat, rank: spec_fn(SourceType) -> nat, ty: SourceType, component: SourceType) -> bool {
    component.0 < count ==> rank(component) < rank(ty)
}

/// Whether no type is part of itself: each ranks above the types that it is made of, and below their number.
pub open spec fn grounded(analysis: &Analysis, rank: spec_fn(SourceType) -> nat) -> bool {
    let count = analysis.types.entries@.len();
    forall|ty: SourceType|
        ty.0 < count ==> #[trigger] rank(ty) < count && match analysis.types.entries@[ty.0 as int] {
            ResolvedType::List(element) => above(count, rank, ty, element),
            ResolvedType::Mapping { key, value } => above(count, rank, ty, key) && above(count, rank, ty, value),
            ResolvedType::Union(alternatives) => forall|i: int|
                0 <= i < alternatives@.len() ==> above(count, rank, ty, payload_of((#[trigger] alternatives@[i])@)),
            _ => true,
        }
}

proof fn lemma_deep_enough(
    analysis: &Analysis,
    rank: spec_fn(SourceType) -> nat,
    t: Table,
    ty: SourceType,
    left: nat,
    right: nat,
)
    requires
        grounded(analysis, rank),
        ty.0 < analysis.types.entries@.len() ==> rank(ty) < left && rank(ty) < right,
    ensures
        type_rule(analysis, t, ty, left) == type_rule(analysis, t, ty, right),
    decreases left, 1nat, 0int,
{
    reveal_with_fuel(type_rule, 1);
    reveal_with_fuel(made_of, 1);
    reveal_with_fuel(payloads_from, 1);
    let count = analysis.types.entries@.len();
    if ty.0 < count {
        assert(rank(ty) < count);
        let a = (left - 1) as nat;
        let b = (right - 1) as nat;
        match analysis.types.entries@[ty.0 as int] {
            ResolvedType::List(element) => {
                assert(above(count, rank, ty, element));
                lemma_deep_enough(analysis, rank, t, element, a, b);
            },
            ResolvedType::Mapping { key, value } => {
                assert(above(count, rank, ty, key) && above(count, rank, ty, value));
                lemma_deep_enough(analysis, rank, t, key, a, b);
                if let Ok((after, _)) = type_rule(analysis, t, key, a) {
                    lemma_deep_enough(analysis, rank, after, value, a, b);
                }
            },
            ResolvedType::Union(alternatives) => {
                lemma_payloads_deep_enough(analysis, rank, t, alternatives@, 0, seq![], a, b);
            },
            _ => {},
        }
    }
}

proof fn lemma_payloads_deep_enough(
    analysis: &Analysis,
    rank: spec_fn(SourceType) -> nat,
    t: Table,
    alternatives: Seq<SourceAlternative>,
    from: int,
    done: Seq<AlternativeView>,
    left: nat,
    right: nat,
)
    requires
        grounded(analysis, rank),
        0 <= from,
        forall|i: int|
            0 <= i < alternatives.len() ==> payload_of((#[trigger] alternatives[i])@).0
                < analysis.types.entries@.len() ==> rank(payload_of(alternatives[i]@)) < left && rank(
                payload_of(alternatives[i]@),
            ) < right,
    ensures
        payloads_from(analysis, t, alternatives, from, done, left) == payloads_from(
            analysis,
            t,
            alternatives,
            from,
            done,
            right,
        ),
    decreases left, 2nat, alternatives.len() - from,
{
    reveal_with_fuel(type_rule, 1);
    reveal_with_fuel(made_of, 1);
    reveal_with_fuel(payloads_from, 1);
    if from < alternatives.len() {
        let ty = payload_of(alternatives[from]@);
        lemma_deep_enough(analysis, rank, t, ty, left, right);
        if let Ok((after, payload)) = type_rule(analysis, t, ty, left) {
            let next = done.push(AlternativeView { constructor: constructor_of(alternatives[from]@), payload });
            lemma_payloads_deep_enough(analysis, rank, after, alternatives, from + 1, next, left, right);
        }
    }
}

/// Where no type is part of itself, every type is mapped whole, in whatever order the types are listed: more depth
/// would not change what it becomes.
pub proof fn law_types_are_mapped_whole(
    analysis: &Analysis,
    rank: spec_fn(SourceType) -> nat,
    t: Table,
    ty: SourceType,
    depth: nat,
)
    requires
        grounded(analysis, rank),
        depth >= analysis.types.entries@.len(),
    ensures
        type_rule(analysis, t, ty, depth) == type_rule(analysis, t, ty, analysis.types.entries@.len()),
{
    if ty.0 < analysis.types.entries@.len() {
        assert(rank(ty) < analysis.types.entries@.len());
    }
    lemma_deep_enough(analysis, rank, t, ty, depth, analysis.types.entries@.len());
}

} // verus!
