//! The assembly of a whole program: its types, definitions and functions.

use crate::analysis::{
    self, Analysis, FunctionSignature, ParameterSignature, ResolvedType, TypeDefinitionKind,
    TypeId as SourceType, TypeState, unit_type,
};
use crate::ast::PrimitiveType as SourcePrimitive;
use crate::ir::{
    self, AlternativeView, BlockId, ByteSpan, ConstantValue, ConstantView, ConstructorView, DefinitionId,
    FailureSite, Function, FunctionId, LocalId, LocalOrigin, NominalDefinition, Operand, OperandView,
    PrimitiveType, Program, TerminatorKind, Type, TypeId, TypeView, UnionAlternative, first_index, type_views,
};
use crate::lowering::builder::Builder;
use crate::lowering::model::{
    Context, DefinitionView, FunctionView, LayoutView, Outcome, State, TerminatorView, block_views, declare,
    definition_view, definition_views, entered, finish, function_view, function_views, layout_view, local_views,
    mapped, open_block,
};
use crate::lowering::rules::{bind, constant, inject, storage_of, text_at};
use crate::lowering::steps::{map_storage, source_text};
use crate::lowering::translation::{always, block_rule, expression_rule};
use crate::semantic::{FunctionCompletion, SemanticResult};
use crate::source::Span;
use vstd::prelude::*;
use vstd::string::*;

verus! {

/// The contents of a program.
#[verifier::ext_equal]
pub struct ProgramView {
    pub filename: Seq<char>,
    pub byte_len: usize,
    pub types: Seq<TypeView>,
    pub definitions: Seq<DefinitionView>,
    pub functions: Seq<FunctionView>,
    pub entry: Option<FunctionId>,
    pub locations: Seq<ByteSpan>,
    pub failure_sites: Seq<FailureSite>,
}

pub open spec fn program_view(program: Program) -> ProgramView {
    ProgramView {
        filename: program.source.filename@,
        byte_len: program.source.byte_len,
        types: type_views(program.types@),
        definitions: definition_views(program.definitions@),
        functions: function_views(program.functions@),
        entry: program.entry,
        locations: program.locations@,
        failure_sites: program.failure_sites@,
    }
}

/// The type that a type of the analysis became.
pub open spec fn component(types: Seq<Option<TypeId>>, ty: SourceType) -> Result<TypeId, &'static str> {
    if ty.0 < types.len() && types[ty.0 as int] is Some {
        Ok(types[ty.0 as int]->0)
    } else {
        Err("frontend type identity is out of range")
    }
}

pub open spec fn primitive_of(primitive: SourcePrimitive) -> PrimitiveType {
    match primitive {
        SourcePrimitive::Int => PrimitiveType::Int,
        SourcePrimitive::Float => PrimitiveType::Float,
        SourcePrimitive::Str => PrimitiveType::Str,
        SourcePrimitive::Bool => PrimitiveType::Bool,
        SourcePrimitive::Char => PrimitiveType::Char,
    }
}

pub open spec fn alternative_rule(types: Seq<Option<TypeId>>, alternative: analysis::AlternativeView) -> Result<
    AlternativeView,
    &'static str,
> {
    match component(types, analysis::payload_of(alternative)) {
        Err(fault) => Err(fault),
        Ok(payload) => Ok(AlternativeView { constructor: constructor_of(alternative), payload }),
    }
}

/// How an alternative is told from the others.
pub open spec fn constructor_of(alternative: analysis::AlternativeView) -> ConstructorView {
    match alternative {
        analysis::AlternativeView::Untagged(_) => ConstructorView::Untagged,
        analysis::AlternativeView::Tagged { tag, .. } => ConstructorView::Tagged(tag),
        analysis::AlternativeView::Error(_) => ConstructorView::Error,
    }
}

/// The alternatives of a union from one on.
pub open spec fn alternatives_from(
    types: Seq<Option<TypeId>>,
    alternatives: Seq<analysis::UnionAlternative>,
    from: int,
    done: Seq<AlternativeView>,
) -> Result<Seq<AlternativeView>, &'static str>
    decreases alternatives.len() - from,
{
    if from < 0 || from >= alternatives.len() {
        Ok(done)
    } else {
        match alternative_rule(types, alternatives[from]@) {
            Err(fault) => Err(fault),
            Ok(alternative) => alternatives_from(types, alternatives, from + 1, done.push(alternative)),
        }
    }
}

/// The types of the program so far, and what each type of the analysis became, if it has been looked at.
#[verifier::ext_equal]
pub struct Table {
    pub types: Seq<TypeView>,
    pub mapped: Seq<Option<TypeId>>,
}

/// A table with one more type of the analysis.
pub open spec fn settled(t: Table, ty: SourceType, view: TypeView) -> (Table, TypeId) {
    let (types, id) = interned(t.types, view);
    (Table { types, mapped: t.mapped.update(ty.0 as int, Some(id)) }, id)
}

/// What a type of the analysis becomes, after what it is made of. Its components are nested at most `depth` deep, as
/// those of every type are that is no part of itself where `depth` is the number of types.
#[verifier::opaque]
pub open spec fn type_rule(analysis: &Analysis, t: Table, ty: SourceType, depth: nat) -> Result<
    (Table, TypeId),
    &'static str,
>
    decreases depth, 1nat, 0int,
{
    if ty.0 >= analysis.types.entries@.len() {
        Err("frontend type identity is out of range")
    } else if ty.0 < t.mapped.len() && t.mapped[ty.0 as int] is Some {
        Ok((t, t.mapped[ty.0 as int]->0))
    } else if depth == 0 {
        Err("frontend type is part of itself")
    } else {
        match made_of(analysis, t, analysis.types.entries@[ty.0 as int], (depth - 1) as nat) {
            Err(fault) => Err(fault),
            Ok((t, view)) => Ok(settled(t, ty, view)),
        }
    }
}

/// What a type is, once its components are in the table.
#[verifier::opaque]
pub open spec fn made_of(analysis: &Analysis, t: Table, ty: ResolvedType, depth: nat) -> Result<
    (Table, TypeView),
    &'static str,
>
    decreases depth, 3nat, 0int,
{
    match ty {
        ResolvedType::Unit => Ok((t, TypeView::Unit)),
        ResolvedType::Primitive(primitive) => Ok((t, TypeView::Primitive(primitive_of(primitive)))),
        ResolvedType::List(element) => match type_rule(analysis, t, element, depth) {
            Err(fault) => Err(fault),
            Ok((t, element)) => Ok((t, TypeView::List(element))),
        },
        ResolvedType::Mapping { key, value } => match type_rule(analysis, t, key, depth) {
            Err(fault) => Err(fault),
            Ok((t, key)) => match type_rule(analysis, t, value, depth) {
                Err(fault) => Err(fault),
                Ok((t, value)) => Ok((t, TypeView::Mapping { key, value })),
            },
        },
        ResolvedType::Nominal(declaration) => if declaration.0 < analysis.type_definitions@.len() {
            Ok((t, TypeView::Nominal(DefinitionId(declaration.0))))
        } else {
            Err("invalid nominal definition identity")
        },
        ResolvedType::Union(alternatives) => match payloads_from(analysis, t, alternatives@, 0, seq![], depth) {
            Err(fault) => Err(fault),
            Ok((t, alternatives)) => Ok((t, TypeView::Union(alternatives))),
        },
    }
}

/// The alternatives of a union from one on, each with its payload in the table.
#[verifier::opaque]
pub open spec fn payloads_from(
    analysis: &Analysis,
    t: Table,
    alternatives: Seq<analysis::UnionAlternative>,
    from: int,
    done: Seq<AlternativeView>,
    depth: nat,
) -> Result<(Table, Seq<AlternativeView>), &'static str>
    decreases depth, 2nat, alternatives.len() - from,
{
    if from < 0 || from >= alternatives.len() {
        Ok((t, done))
    } else {
        match type_rule(analysis, t, analysis::payload_of(alternatives[from]@), depth) {
            Err(fault) => Err(fault),
            Ok((t, payload)) => payloads_from(
                analysis,
                t,
                alternatives,
                from + 1,
                done.push(AlternativeView { constructor: constructor_of(alternatives[from]@), payload }),
                depth,
            ),
        }
    }
}

/// The identity of a type, which is added where it is new.
pub open spec fn interned(types: Seq<TypeView>, ty: TypeView) -> (Seq<TypeView>, TypeId) {
    match first_index(types, ty) {
        Some(index) => (types, TypeId(index as usize)),
        None => (types.push(ty), TypeId(types.len() as usize)),
    }
}

/// The types of the analysis from one on.
pub open spec fn types_from(analysis: &Analysis, t: Table, from: int) -> Result<Table, &'static str>
    decreases analysis.types.entries@.len() - from,
{
    if from < 0 || from >= analysis.types.entries@.len() {
        Ok(t)
    } else {
        match type_rule(analysis, t, SourceType(from as usize), analysis.types.entries@.len()) {
            Err(fault) => Err(fault),
            Ok((t, _)) => types_from(analysis, t, from + 1),
        }
    }
}

/// A table without types, before any type of the analysis was looked at.
pub open spec fn no_types(analysis: &Analysis) -> Table {
    Table { types: seq![], mapped: Seq::new(analysis.types.entries@.len(), |i: int| None) }
}

/// The types with those of the first `count` definitions.
pub open spec fn with_nominals(types: Seq<TypeView>, count: int) -> Seq<TypeView>
    decreases count,
{
    if count <= 0 {
        types
    } else {
        interned(with_nominals(types, count - 1), TypeView::Nominal(DefinitionId((count - 1) as usize))).0
    }
}

/// The fields of a struct from one on.
pub open spec fn fields_from(
    analysis: &Analysis,
    types: Seq<Option<TypeId>>,
    members: Seq<analysis::StructMember>,
    from: int,
    done: Seq<(Seq<char>, TypeId, ir::MemberStorage)>,
) -> Result<Seq<(Seq<char>, TypeId, ir::MemberStorage)>, &'static str>
    decreases members.len() - from,
{
    if from < 0 || from >= members.len() {
        Ok(done)
    } else {
        match members[from].ty {
            TypeState::Resolved(ty) => match component(types, ty) {
                Err(fault) => Err(fault),
                Ok(ty) => fields_from(
                    analysis,
                    types,
                    members,
                    from + 1,
                    done.push((text_at(analysis.source, members[from].name), ty, storage_of(members[from].storage))),
                ),
            },
            _ => Err("unresolved struct field type"),
        }
    }
}

/// The fields of a tuple from one on.
pub open spec fn positions_from(
    types: Seq<Option<TypeId>>,
    members: Seq<analysis::TupleMember>,
    from: int,
    done: Seq<TypeId>,
) -> Result<Seq<TypeId>, &'static str>
    decreases members.len() - from,
{
    if from < 0 || from >= members.len() {
        Ok(done)
    } else {
        match members[from].ty {
            TypeState::Resolved(ty) => match component(types, ty) {
                Err(fault) => Err(fault),
                Ok(ty) => positions_from(types, members, from + 1, done.push(ty)),
            },
            _ => Err("unresolved tuple field type"),
        }
    }
}

/// What a definition becomes.
pub open spec fn layout_rule(analysis: &Analysis, types: Seq<Option<TypeId>>, kind: TypeDefinitionKind) -> Result<
    LayoutView,
    &'static str,
> {
    match kind {
        TypeDefinitionKind::Struct(members) => match fields_from(analysis, types, members@, 0, seq![]) {
            Err(fault) => Err(fault),
            Ok(fields) => Ok(LayoutView::Struct(fields)),
        },
        TypeDefinitionKind::Tuple(members) => match positions_from(types, members@, 0, seq![]) {
            Err(fault) => Err(fault),
            Ok(fields) => Ok(LayoutView::Tuple(fields)),
        },
        TypeDefinitionKind::Union { alternatives, .. } => match alternatives_from(
            types,
            alternatives@,
            0,
            seq![],
        ) {
            Err(fault) => Err(fault),
            Ok(alternatives) => Ok(LayoutView::Union(alternatives)),
        },
        TypeDefinitionKind::Invalid => Err("invalid nominal definition reached lowering"),
    }
}

/// The definitions from one on.
pub open spec fn definitions_from(
    analysis: &Analysis,
    types: Seq<Option<TypeId>>,
    from: int,
    done: Seq<DefinitionView>,
) -> Result<Seq<DefinitionView>, &'static str>
    decreases analysis.type_definitions@.len() - from,
{
    if from < 0 || from >= analysis.type_definitions@.len() {
        Ok(done)
    } else {
        let definition = analysis.type_definitions@[from];
        match layout_rule(analysis, types, definition.kind) {
            Err(fault) => Err(fault),
            Ok(layout) => definitions_from(
                analysis,
                types,
                from + 1,
                done.push(DefinitionView { name: text_at(analysis.source, definition.node.name.span), layout }),
            ),
        }
    }
}

/// A function without a body.
pub open spec fn shell(name: Seq<char>, result: TypeId) -> FunctionView {
    FunctionView { name, parameters: seq![], result, locals: seq![], entry: None, blocks: seq![] }
}

/// The functions from one on, without their bodies.
pub open spec fn shells_from(
    analysis: &Analysis,
    types: Seq<Option<TypeId>>,
    from: int,
    done: Seq<FunctionView>,
) -> Result<Seq<FunctionView>, &'static str>
    decreases analysis.function_signatures@.len() - from,
{
    if from < 0 || from >= analysis.function_signatures@.len() {
        Ok(done)
    } else {
        let signature = analysis.function_signatures@[from];
        match signature.result {
            TypeState::Resolved(ty) => match component(types, ty) {
                Err(fault) => Err(fault),
                Ok(ty) => shells_from(
                    analysis,
                    types,
                    from + 1,
                    done.push(shell(text_at(analysis.source, signature.node.name.span), ty)),
                ),
            },
            _ => Err("unresolved function result"),
        }
    }
}

/// The function that the program starts in.
pub open spec fn start_rule(analysis: &Analysis, semantic: &SemanticResult) -> Result<FunctionId, &'static str> {
    match semantic.entry_point {
        Some(entry) => if entry.function.0 < analysis.function_signatures@.len() {
            Ok(FunctionId(entry.function.0))
        } else {
            Err("validated entry function has no IR mapping")
        },
        None => Err("validated entry function has no IR mapping"),
    }
}

/// The state before a function body.
pub open spec fn fresh(locations: Seq<ByteSpan>, failure_sites: Seq<FailureSite>, bindings: nat) -> State {
    State {
        locations,
        failure_sites,
        parameters: seq![],
        locals: seq![],
        blocks: seq![],
        block: None,
        bindings: Seq::new(bindings, |i: int| None),
        loops: seq![],
        narrowings: seq![],
        tests: seq![],
    }
}

/// The parameters of a function from one on.
pub open spec fn parameters_from(c: Context, s: State, parameters: Seq<ParameterSignature>, from: int) -> Outcome<()>
    decreases parameters.len() - from,
{
    if from < 0 || from >= parameters.len() {
        Ok((s, ()))
    } else {
        match parameters[from].ty {
            TypeState::Resolved(ty) => match mapped(c, ty) {
                Err(fault) => Err(fault),
                Ok(ty) => {
                    let (s, local) = declare(
                        s,
                        ty,
                        Some(text_at(c.analysis.source, parameters[from].node.name.span)),
                        LocalOrigin::Parameter,
                    );
                    parameters_from(c, bind(s, parameters[from].binding, local), parameters, from + 1)
                },
            },
            _ => Err("unresolved parameter type"),
        }
    }
}

/// How many of the first `count` completions are of a function with the given body.
pub open spec fn completions_like(
    completions: Seq<FunctionCompletion>,
    function: analysis::FunctionId,
    body: Span,
    count: int,
) -> nat
    decreases count,
{
    if count <= 0 {
        0
    } else if completions[count - 1].function == function && completions[count - 1].body == body {
        completions_like(completions, function, body, count - 1) + 1
    } else {
        completions_like(completions, function, body, count - 1)
    }
}

/// The latest of the first `count` completions of a function with the given body.
pub open spec fn completion_like(
    completions: Seq<FunctionCompletion>,
    function: analysis::FunctionId,
    body: Span,
    count: int,
) -> Option<int>
    decreases count,
{
    if count <= 0 {
        None
    } else if completions[count - 1].function == function && completions[count - 1].body == body {
        Some(count - 1)
    } else {
        completion_like(completions, function, body, count - 1)
    }
}

/// The value of a function body without one: the unit value, put into the result union where that is asked for.
#[verifier::opaque]
pub open spec fn completed(c: Context, s: State, signature: FunctionSignature) -> Outcome<OperandView> {
    let completions = c.semantic.flow.completions@;
    let body = signature.node.body.span;
    match completion_like(completions, signature.id, body, completions.len() as int) {
        None => Err("function fallthrough does not have exactly one completion record"),
        Some(i) => if completions_like(completions, signature.id, body, completions.len() as int) != 1 {
            Err("function fallthrough does not have exactly one completion record")
        } else {
            match constant(c, unit_type(), ConstantView::Unit) {
                Err(fault) => Err(fault),
                Ok(value) => match completions[i].unit_injection {
                    None => Ok((s, value)),
                    Some(alternative) => match signature.result {
                        TypeState::Resolved(union) => inject(c, s, value, union, alternative@, body),
                        _ => Err("unresolved function result"),
                    },
                },
            }
        },
    }
}

/// A function body, from its parameters to the value that it returns.
pub open spec fn body_rule(c: Context, s: State, signature: FunctionSignature) -> Outcome<BlockId> {
    let body = &signature.node.body;
    match parameters_from(c, s, signature.parameters@, 0) {
        Err(fault) => Err(fault),
        Ok((s, _)) => {
            let (s, start) = open_block(s);
            match block_rule(c, entered(s, start), body) {
                Err(fault) => Err(fault),
                Ok((s, expected)) => {
                    let valued = if s.block is None {
                        Ok((s, None))
                    } else {
                        match &body.value {
                            Some(value) => expression_rule(c, s, value),
                            None => always(completed(c, s, signature)),
                        }
                    };
                    match valued {
                        Err(fault) => Err(fault),
                        Ok((s, value)) => if expected != (s.block is Some) {
                            Err("function-body lowering contradicts its flow summary")
                        } else {
                            match value {
                                None => Ok((s, start)),
                                Some(value) => match finish(s, TerminatorView::Return(value), body.span) {
                                    Err(fault) => Err(fault),
                                    Ok((s, _)) => Ok((s, start)),
                                },
                            }
                        },
                    }
                },
            }
        },
    }
}

/// A function with the body that a state holds.
pub open spec fn filled_function(shell: FunctionView, s: State, start: BlockId) -> FunctionView {
    FunctionView {
        name: shell.name,
        parameters: s.parameters,
        result: shell.result,
        locals: s.locals,
        entry: Some(start),
        blocks: s.blocks,
    }
}

/// The context of a function body.
pub open spec fn body_context<'a>(
    analysis: &'a Analysis<'a>,
    semantic: &'a SemanticResult,
    types: Seq<Option<TypeId>>,
    program: ProgramView,
    function: analysis::FunctionId,
) -> Context<'a> {
    Context {
        analysis,
        semantic,
        types,
        program_types: program.types,
        definitions: program.definitions,
        function,
    }
}

/// The bodies of the functions from one on.
pub open spec fn bodies_from<'a>(
    analysis: &'a Analysis<'a>,
    semantic: &'a SemanticResult,
    types: Seq<Option<TypeId>>,
    program: ProgramView,
    from: int,
) -> Result<ProgramView, &'static str>
    decreases analysis.function_signatures@.len() - from,
{
    if from < 0 || from >= analysis.function_signatures@.len() {
        Ok(program)
    } else {
        let signature = analysis.function_signatures@[from];
        match body_rule(
            body_context(analysis, semantic, types, program, signature.id),
            fresh(program.locations, program.failure_sites, analysis.bindings@.len()),
            signature,
        ) {
            Err(fault) => Err(fault),
            Ok((s, start)) => bodies_from(
                analysis,
                semantic,
                types,
                ProgramView {
                    functions: program.functions.update(
                        from,
                        filled_function(program.functions[from], s, start),
                    ),
                    locations: s.locations,
                    failure_sites: s.failure_sites,
                    ..program
                },
                from + 1,
            ),
        }
    }
}

/// The program that the facts of the front end stand for, before it is validated.
pub open spec fn assembled<'a>(analysis: &'a Analysis<'a>, semantic: &'a SemanticResult) -> Result<
    ProgramView,
    &'static str,
> {
    match types_from(analysis, no_types(analysis), 0) {
        Err(fault) => Err(fault),
        Ok(Table { types, mapped }) => match definitions_from(analysis, mapped, 0, seq![]) {
            Err(fault) => Err(fault),
            Ok(definitions) => match shells_from(analysis, mapped, 0, seq![]) {
                Err(fault) => Err(fault),
                Ok(functions) => match start_rule(analysis, semantic) {
                    Err(fault) => Err(fault),
                    Ok(entry) => bodies_from(
                        analysis,
                        semantic,
                        mapped,
                        ProgramView {
                            filename: analysis.source.path@,
                            byte_len: analysis.source.bytes().len() as usize,
                            types: with_nominals(types, analysis.type_definitions@.len() as int),
                            definitions,
                            functions,
                            entry: Some(entry),
                            locations: seq![],
                            failure_sites: seq![],
                        },
                        0,
                    ),
                },
            },
        },
    }
}

fn map_primitive(primitive: SourcePrimitive) -> (result: PrimitiveType)
    ensures
        result == primitive_of(primitive),
{
    match primitive {
        SourcePrimitive::Int => PrimitiveType::Int,
        SourcePrimitive::Float => PrimitiveType::Float,
        SourcePrimitive::Str => PrimitiveType::Str,
        SourcePrimitive::Bool => PrimitiveType::Bool,
        SourcePrimitive::Char => PrimitiveType::Char,
    }
}

fn find_component(types: &Vec<Option<TypeId>>, ty: SourceType) -> (result: Result<TypeId, &'static str>)
    ensures
        result == component(types@, ty),
{
    if ty.0 < types.len() {
        match types[ty.0] {
            Some(found) => Ok(found),
            None => Err("frontend type identity is out of range"),
        }
    } else {
        Err("frontend type identity is out of range")
    }
}

fn map_alternative(types: &Vec<Option<TypeId>>, alternative: &analysis::UnionAlternative) -> (result: Result<
    UnionAlternative,
    &'static str,
>)
    ensures
        match alternative_rule(types@, alternative@) {
            Ok(view) => result is Ok && result->Ok_0@ == view,
            Err(fault) => result is Err && result->Err_0 == fault,
        },
{
    let payload = find_component(types, analysis::alternative_payload(alternative))?;
    Ok(
        match alternative {
            analysis::UnionAlternative::Untagged(_) => UnionAlternative::untagged(payload),
            analysis::UnionAlternative::Tagged { tag, .. } => UnionAlternative::tagged(tag.as_str(), payload),
            analysis::UnionAlternative::Error(_) => UnionAlternative::error(payload),
        },
    )
}

fn intern(program: &mut Program, ty: Type) -> (result: TypeId)
    ensures
        final(program).same_but_types(old(program)),
        (type_views(final(program).types@), result) == interned(type_views(old(program).types@), ty@),
{
    let ghost before = *program;
    let ghost view = ty@;
    let result = program.intern_type(ty);
    proof {
        assert(before.types@.len() == before.types.len());
        if before.type_index(view) is None {
            assert(type_views(program.types@) =~= type_views(before.types@).push(view));
        }
    }
    result
}

/// The table that a program and a list of mapped types stand for.
pub open spec fn table(program: &Program, mapped: &Vec<Option<TypeId>>) -> Table {
    Table { types: type_views(program.types@), mapped: mapped@ }
}

#[verifier::spinoff_prover]
fn map_type(
    analysis: &Analysis,
    program: &mut Program,
    mapped: &mut Vec<Option<TypeId>>,
    ty: SourceType,
    depth: usize,
) -> (result: Result<TypeId, &'static str>)
    requires
        old(mapped)@.len() == analysis.types.entries@.len(),
    ensures
        final(mapped)@.len() == old(mapped)@.len(),
        final(program).same_but_types(old(program)),
        match type_rule(analysis, table(old(program), old(mapped)), ty, depth as nat) {
            Ok((t, id)) => result is Ok && result->Ok_0 == id && table(final(program), final(mapped)) == t,
            Err(fault) => result is Err && result->Err_0 == fault,
        },
    decreases depth, 1nat,
{
    proof {
        reveal_with_fuel(type_rule, 1);
    }
    if ty.0 >= analysis.types.entries.len() {
        return Err("frontend type identity is out of range");
    }
    if let Some(found) = mapped[ty.0] {
        return Ok(found);
    }
    if depth == 0 {
        return Err("frontend type is part of itself");
    }
    let view = map_made_of(analysis, program, mapped, &analysis.types.entries[ty.0], depth - 1)?;
    let ghost before = table(program, mapped);
    let ghost shown = view@;
    let id = intern(program, view);
    mapped.set(ty.0, Some(id));
    assert(table(program, mapped) == settled(before, ty, shown).0);
    Ok(id)
}

#[verifier::spinoff_prover]
fn map_made_of(
    analysis: &Analysis,
    program: &mut Program,
    mapped: &mut Vec<Option<TypeId>>,
    ty: &ResolvedType,
    depth: usize,
) -> (result: Result<Type, &'static str>)
    requires
        old(mapped)@.len() == analysis.types.entries@.len(),
    ensures
        final(mapped)@.len() == old(mapped)@.len(),
        final(program).same_but_types(old(program)),
        match made_of(analysis, table(old(program), old(mapped)), *ty, depth as nat) {
            Ok((t, view)) => result is Ok && result->Ok_0@ == view && table(final(program), final(mapped)) == t,
            Err(fault) => result is Err && result->Err_0 == fault,
        },
    decreases depth, 3nat,
{
    proof {
        reveal_with_fuel(made_of, 1);
    }
    match ty {
        ResolvedType::Unit => Ok(Type::Unit),
        ResolvedType::Primitive(primitive) => Ok(Type::Primitive(map_primitive(*primitive))),
        ResolvedType::List(element) => {
            let element = map_type(analysis, program, mapped, *element, depth)?;
            Ok(Type::List(element))
        },
        ResolvedType::Mapping { key, value } => {
            let key = map_type(analysis, program, mapped, *key, depth)?;
            let value = map_type(analysis, program, mapped, *value, depth)?;
            Ok(Type::Mapping { key, value })
        },
        ResolvedType::Nominal(declaration) => if declaration.0 < analysis.type_definitions.len() {
            Ok(Type::Nominal(DefinitionId(declaration.0)))
        } else {
            Err("invalid nominal definition identity")
        },
        ResolvedType::Union(alternatives) => {
            let alternatives = map_payloads(analysis, program, mapped, alternatives, depth)?;
            Ok(Type::Union(alternatives))
        },
    }
}

#[verifier::spinoff_prover]
fn map_payloads(
    analysis: &Analysis,
    program: &mut Program,
    mapped: &mut Vec<Option<TypeId>>,
    alternatives: &Vec<analysis::UnionAlternative>,
    depth: usize,
) -> (result: Result<Vec<UnionAlternative>, &'static str>)
    requires
        old(mapped)@.len() == analysis.types.entries@.len(),
    ensures
        final(mapped)@.len() == old(mapped)@.len(),
        final(program).same_but_types(old(program)),
        match payloads_from(analysis, table(old(program), old(mapped)), alternatives@, 0, seq![], depth as nat) {
            Ok((t, views)) => result is Ok && ir::alternative_views(result->Ok_0@) == views && table(
                final(program),
                final(mapped),
            ) == t,
            Err(fault) => result is Err && result->Err_0 == fault,
        },
    decreases depth, 2nat,
{
    let mut done: Vec<UnionAlternative> = Vec::new();
    assert(ir::alternative_views(done@) =~= seq![]);
    let mut index: usize = 0;
    while index < alternatives.len()
        invariant
            index <= alternatives@.len(),
            mapped@.len() == old(mapped)@.len() == analysis.types.entries@.len(),
            program.same_but_types(old(program)),
            payloads_from(
                analysis,
                table(program, mapped),
                alternatives@,
                index as int,
                ir::alternative_views(done@),
                depth as nat,
            ) == payloads_from(analysis, table(old(program), old(mapped)), alternatives@, 0, seq![], depth as nat),
        decreases alternatives@.len() - index,
    {
        proof {
            reveal_with_fuel(payloads_from, 1);
        }
        let payload = map_type(
            analysis,
            program,
            mapped,
            analysis::alternative_payload(&alternatives[index]),
            depth,
        )?;
        let alternative = match &alternatives[index] {
            analysis::UnionAlternative::Untagged(_) => UnionAlternative::untagged(payload),
            analysis::UnionAlternative::Tagged { tag, .. } => UnionAlternative::tagged(tag.as_str(), payload),
            analysis::UnionAlternative::Error(_) => UnionAlternative::error(payload),
        };
        let ghost earlier = done@;
        let ghost added = alternative@;
        done.push(alternative);
        assert(ir::alternative_views(done@) =~= ir::alternative_views(earlier).push(added));
        index += 1;
    }
    proof {
        reveal_with_fuel(payloads_from, 1);
    }
    Ok(done)
}

fn map_types(analysis: &Analysis, program: &mut Program) -> (result: Result<Vec<Option<TypeId>>, &'static str>)
    requires
        type_views(old(program).types@) == Seq::<TypeView>::empty(),
    ensures
        final(program).same_but_types(old(program)),
        match types_from(analysis, no_types(analysis), 0) {
            Ok(t) => result is Ok && table(final(program), &result->Ok_0) == t,
            Err(fault) => result is Err && result->Err_0 == fault,
        },
{
    let count = analysis.types.entries.len();
    let mut mapped: Vec<Option<TypeId>> = Vec::new();
    while mapped.len() < count
        invariant
            mapped@.len() <= count,
            forall|i: int| 0 <= i < mapped@.len() ==> #[trigger] mapped@[i] is None,
        decreases count - mapped@.len(),
    {
        mapped.push(None);
    }
    assert(mapped@ =~= no_types(analysis).mapped);
    let mut index: usize = 0;
    while index < count
        invariant
            index <= count,
            count == analysis.types.entries@.len() == mapped@.len(),
            program.same_but_types(old(program)),
            types_from(analysis, table(program, &mapped), index as int) == types_from(
                analysis,
                no_types(analysis),
                0,
            ),
        decreases count - index,
    {
        map_type(analysis, program, &mut mapped, analysis::TypeId(index), count)?;
        index += 1;
    }
    Ok(mapped)
}

#[verifier::loop_isolation(false)]
fn intern_nominals(analysis: &Analysis, program: &mut Program)
    ensures
        final(program).same_but_types(old(program)),
        type_views(final(program).types@) == with_nominals(
            type_views(old(program).types@),
            analysis.type_definitions@.len() as int,
        ),
{
    let mut index: usize = 0;
    while index < analysis.type_definitions.len()
        invariant
            index <= analysis.type_definitions@.len(),
            program.same_but_types(old(program)),
            type_views(program.types@) == with_nominals(type_views(old(program).types@), index as int),
        decreases analysis.type_definitions@.len() - index,
    {
        intern(program, Type::Nominal(DefinitionId(index)));
        index += 1;
    }
}

proof fn lemma_struct_layout(
    before: NominalDefinition,
    after: NominalDefinition,
    name: Seq<char>,
    ty: TypeId,
    storage: ir::MemberStorage,
)
    requires
        before.layout is Struct,
        after.layout is Struct,
        ({
            let old_fields = (before.layout->Struct_0)@;
            let new_fields = (after.layout->Struct_0)@;
            &&& new_fields.len() == old_fields.len() + 1
            &&& new_fields.drop_last() == old_fields
            &&& new_fields.last().name@ == name
            &&& new_fields.last().ty == ty
            &&& new_fields.last().storage == storage
        }),
    ensures
        layout_view(before.layout) matches LayoutView::Struct(fields) && layout_view(after.layout)
            == LayoutView::Struct(fields.push((name, ty, storage))),
{
    let old_fields = (before.layout->Struct_0)@;
    let new_fields = (after.layout->Struct_0)@;
    let fields = layout_view(before.layout)->Struct_0;
    assert forall|i: int| 0 <= i < old_fields.len() implies new_fields[i] == old_fields[i] by {
        assert(new_fields.drop_last()[i] == old_fields[i]);
    }
    assert(layout_view(after.layout)->Struct_0 =~= fields.push((name, ty, storage)));
}

#[verifier::loop_isolation(false)]
fn make_struct(
    analysis: &Analysis,
    types: &Vec<Option<TypeId>>,
    name: String,
    members: &Vec<analysis::StructMember>,
) -> (result:
    Result<NominalDefinition, &'static str>)
    ensures
        match fields_from(analysis, types@, members@, 0, seq![]) {
            Ok(fields) => result is Ok && definition_view(result->Ok_0) == (DefinitionView {
                name: name@,
                layout: LayoutView::Struct(fields),
            }),
            Err(fault) => result is Err && result->Err_0 == fault,
        },
{
    let ghost named = name@;
    let mut definition = NominalDefinition::structure(name);
    assert(layout_view(definition.layout)->Struct_0 =~= seq![]);
    let mut index: usize = 0;
    while index < members.len()
        invariant
            index <= members@.len(),
            definition.layout is Struct,
            definition.name@ == named,
            fields_from(
                analysis,
                types@,
                members@,
                index as int,
                layout_view(definition.layout)->Struct_0,
            ) == fields_from(analysis, types@, members@, 0, seq![]),
        decreases members@.len() - index,
    {
        let member = members[index];
        match member.ty {
            TypeState::Resolved(ty) => {
                let ty = find_component(types, ty)?;
                let text = source_text(analysis, member.name);
                let ghost before = definition;
                let ghost spelled = text@;
                definition.add_struct_field(text, ty, map_storage(member.storage));
                proof {
                    lemma_struct_layout(before, definition, spelled, ty, storage_of(member.storage));
                }
            },
            _ => return Err("unresolved struct field type"),
        }
        index += 1;
    }
    Ok(definition)
}

#[verifier::loop_isolation(false)]
fn make_tuple(types: &Vec<Option<TypeId>>, name: String, members: &Vec<analysis::TupleMember>) -> (result: Result<
    NominalDefinition,
    &'static str,
>)
    ensures
        match positions_from(types@, members@, 0, seq![]) {
            Ok(fields) => result is Ok && definition_view(result->Ok_0) == (DefinitionView {
                name: name@,
                layout: LayoutView::Tuple(fields),
            }),
            Err(fault) => result is Err && result->Err_0 == fault,
        },
{
    let ghost named = name@;
    let mut definition = NominalDefinition::tuple(name);
    assert(layout_view(definition.layout)->Tuple_0 =~= seq![]);
    let mut index: usize = 0;
    while index < members.len()
        invariant
            index <= members@.len(),
            definition.layout is Tuple,
            definition.name@ == named,
            positions_from(types@, members@, index as int, layout_view(definition.layout)->Tuple_0) == positions_from(
                types@,
                members@,
                0,
                seq![],
            ),
        decreases members@.len() - index,
    {
        match members[index].ty {
            TypeState::Resolved(ty) => {
                let ty = find_component(types, ty)?;
                definition.add_tuple_field(ty);
            },
            _ => return Err("unresolved tuple field type"),
        }
        index += 1;
    }
    Ok(definition)
}

#[verifier::loop_isolation(false)]
fn make_union(
    types: &Vec<Option<TypeId>>,
    name: String,
    alternatives: &Vec<analysis::UnionAlternative>,
) -> (result: Result<
    NominalDefinition,
    &'static str,
>)
    ensures
        match alternatives_from(types@, alternatives@, 0, seq![]) {
            Ok(views) => result is Ok && definition_view(result->Ok_0) == (DefinitionView {
                name: name@,
                layout: LayoutView::Union(views),
            }),
            Err(fault) => result is Err && result->Err_0 == fault,
        },
{
    let ghost named = name@;
    let mut definition = NominalDefinition::union(name);
    assert(layout_view(definition.layout)->Union_0 =~= seq![]);
    let mut index: usize = 0;
    while index < alternatives.len()
        invariant
            index <= alternatives@.len(),
            definition.layout is Union,
            definition.name@ == named,
            alternatives_from(
                types@,
                alternatives@,
                index as int,
                layout_view(definition.layout)->Union_0,
            ) == alternatives_from(types@, alternatives@, 0, seq![]),
        decreases alternatives@.len() - index,
    {
        let alternative = map_alternative(types, &alternatives[index])?;
        let ghost before = definition;
        let ghost added = alternative@;
        definition.add_alternative(alternative);
        assert(layout_view(definition.layout)->Union_0 =~= (layout_view(before.layout)->Union_0).push(added));
        index += 1;
    }
    Ok(definition)
}

fn make_definition(
    analysis: &Analysis,
    types: &Vec<Option<TypeId>>,
    name: String,
    kind: &TypeDefinitionKind,
) -> (result:
    Result<NominalDefinition, &'static str>)
    ensures
        match layout_rule(analysis, types@, *kind) {
            Ok(layout) => result is Ok && definition_view(result->Ok_0) == (DefinitionView { name: name@, layout }),
            Err(fault) => result is Err && result->Err_0 == fault,
        },
{
    match kind {
        TypeDefinitionKind::Struct(members) => make_struct(analysis, types, name, members),
        TypeDefinitionKind::Tuple(members) => make_tuple(types, name, members),
        TypeDefinitionKind::Union { alternatives, .. } => make_union(types, name, alternatives),
        TypeDefinitionKind::Invalid => Err("invalid nominal definition reached lowering"),
    }
}

#[verifier::loop_isolation(false)]
fn make_definitions(analysis: &Analysis, types: &Vec<Option<TypeId>>) -> (result: Result<
    Vec<NominalDefinition>,
    &'static str,
>)
    ensures
        match definitions_from(analysis, types@, 0, seq![]) {
            Ok(definitions) => result is Ok && definition_views(result->Ok_0@) == definitions,
            Err(fault) => result is Err && result->Err_0 == fault,
        },
{
    let mut done: Vec<NominalDefinition> = Vec::new();
    assert(definition_views(done@) =~= seq![]);
    let mut index: usize = 0;
    while index < analysis.type_definitions.len()
        invariant
            index <= analysis.type_definitions@.len(),
            definitions_from(analysis, types@, index as int, definition_views(done@)) == definitions_from(
                analysis,
                types@,
                0,
                seq![],
            ),
        decreases analysis.type_definitions@.len() - index,
    {
        let definition = &analysis.type_definitions[index];
        let name = source_text(analysis, definition.node.name.span);
        let made = make_definition(analysis, types, name, &definition.kind)?;
        let ghost before = done@;
        let ghost added = definition_view(made);
        done.push(made);
        assert(definition_views(done@) =~= definition_views(before).push(added));
        index += 1;
    }
    Ok(done)
}

#[verifier::loop_isolation(false)]
fn make_shells(analysis: &Analysis, types: &Vec<Option<TypeId>>) -> (result: Result<Vec<Function>, &'static str>)
    ensures
        match shells_from(analysis, types@, 0, seq![]) {
            Ok(functions) => result is Ok && function_views(result->Ok_0@) == functions && result->Ok_0@.len()
                == analysis.function_signatures@.len(),
            Err(fault) => result is Err && result->Err_0 == fault,
        },
{
    let mut done: Vec<Function> = Vec::new();
    assert(function_views(done@) =~= seq![]);
    let mut index: usize = 0;
    while index < analysis.function_signatures.len()
        invariant
            index <= analysis.function_signatures@.len(),
            done@.len() == index,
            shells_from(analysis, types@, index as int, function_views(done@)) == shells_from(
                analysis,
                types@,
                0,
                seq![],
            ),
        decreases analysis.function_signatures@.len() - index,
    {
        let signature = &analysis.function_signatures[index];
        match signature.result {
            TypeState::Resolved(ty) => {
                let ty = find_component(types, ty)?;
                let function = Function::new(source_text(analysis, signature.node.name.span), ty);
                let ghost before = done@;
                proof {
                    assert(local_views(function.locals@) =~= seq![]);
                    assert(block_views(function.blocks@) =~= seq![]);
                    assert(function.parameters@ =~= seq![]);
                }
                let ghost added = function_view(function);
                done.push(function);
                assert(function_views(done@) =~= function_views(before).push(added));
            },
            _ => return Err("unresolved function result"),
        }
        index += 1;
    }
    Ok(done)
}

fn find_start(analysis: &Analysis, semantic: &SemanticResult) -> (result: Result<FunctionId, &'static str>)
    ensures
        result == start_rule(analysis, semantic),
{
    match semantic.entry_point {
        Some(entry) => if entry.function.0 < analysis.function_signatures.len() {
            Ok(FunctionId(entry.function.0))
        } else {
            Err("validated entry function has no IR mapping")
        },
        None => Err("validated entry function has no IR mapping"),
    }
}

impl<'a> Builder<'a> {
    #[verifier::loop_isolation(false)]
    fn parameters(&mut self, parameters: &Vec<ParameterSignature<'a>>) -> (result: Result<(), &'static str>)
        ensures
            final(self).did(
                old(self),
                result,
                parameters_from(old(self).context(), old(self)@, parameters@, 0),
            ),
    {
        let ghost first = *self;
        let ghost c = self.context();
        let mut index: usize = 0;
        while index < parameters.len()
            invariant
                self.continues(&first),
                index <= parameters@.len(),
                parameters_from(c, self@, parameters@, index as int) == parameters_from(c, first@, parameters@, 0),
            decreases parameters@.len() - index,
        {
            let parameter = &parameters[index];
            match parameter.ty {
                TypeState::Resolved(ty) => {
                    let ty = self.ty(ty)?;
                    let text = self.identifier_text(parameter.node.name.span);
                    let local = self.declare(ty, Some(text), LocalOrigin::Parameter);
                    self.bind(parameter.binding, local);
                },
                _ => return Err("unresolved parameter type"),
            }
            index += 1;
        }
        Ok(())
    }

    fn find_completion(completions: &Vec<FunctionCompletion>, function: analysis::FunctionId, body: Span) -> (result: (
        usize,
        Option<usize>,
    ))
        ensures
            result.0 == completions_like(completions@, function, body, completions@.len() as int),
            match result.1 {
                Some(index) => completion_like(completions@, function, body, completions@.len() as int) == Some(
                    index as int,
                ) && index < completions@.len(),
                None => completion_like(completions@, function, body, completions@.len() as int) is None,
            },
    {
        let mut count: usize = 0;
        let mut last: Option<usize> = None;
        let mut index: usize = 0;
        while index < completions.len()
            invariant
                index <= completions@.len(),
                count <= index,
                count == completions_like(completions@, function, body, index as int),
                match last {
                    Some(found) => completion_like(completions@, function, body, index as int) == Some(found as int)
                        && found < index,
                    None => completion_like(completions@, function, body, index as int) is None,
                },
            decreases completions@.len() - index,
        {
            if completions[index].function == function && completions[index].body == body {
                count += 1;
                last = Some(index);
            }
            index += 1;
        }
        (count, last)
    }

    fn complete(&mut self, signature: &FunctionSignature<'a>) -> (result: Result<Operand, &'static str>)
        ensures
            final(self).yields(old(self), result, completed(old(self).context(), old(self)@, *signature)),
    {
        proof {
            reveal(completed);
        }
        let semantic = self.semantic;
        let body = signature.node.body.span;
        let (count, found) = Self::find_completion(&semantic.flow.completions, signature.id, body);
        let index = match found {
            None => return Err("function fallthrough does not have exactly one completion record"),
            Some(index) => index,
        };
        if count != 1 {
            return Err("function fallthrough does not have exactly one completion record");
        }
        let value = self.constant(self.analysis.types.unit(), ConstantValue::Unit)?;
        match &semantic.flow.completions[index].unit_injection {
            None => Ok(value),
            Some(alternative) => match signature.result {
                TypeState::Resolved(union) => self.inject(value, union, alternative, body),
                _ => Err("unresolved function result"),
            },
        }
    }

    #[verifier::spinoff_prover]
    fn body(&mut self, signature: &FunctionSignature<'a>) -> (result: Result<BlockId, &'static str>)
        requires
            old(self).ready(),
        ensures
            final(self).gave(old(self), result, body_rule(old(self).context(), old(self)@, *signature)),
    {
        let body = &signature.node.body;
        self.parameters(&signature.parameters)?;
        let start = self.new_block();
        self.block = Some(start);
        let expected = self.block(body)?;
        let value = if self.block.is_none() {
            None
        } else {
            match &body.value {
                Some(value) => self.expression(value)?,
                None => {
                    let value = self.complete(signature)?;
                    Some(value)
                },
            }
        };
        if expected != self.block.is_some() {
            return Err("function-body lowering contradicts its flow summary");
        }
        if let Some(value) = value {
            self.terminate(TerminatorKind::Return(value), body.span)?;
        }
        Ok(start)
    }
}

fn no_locals(count: usize) -> (result: Vec<Option<LocalId>>)
    ensures
        result@ == Seq::new(count as nat, |i: int| None::<LocalId>),
{
    let mut locals: Vec<Option<LocalId>> = Vec::new();
    let mut index: usize = 0;
    while index < count
        invariant
            index <= count,
            locals@.len() == index,
            forall|i: int| 0 <= i < index ==> (#[trigger] locals@[i]) is None,
        decreases count - index,
    {
        locals.push(None);
        index += 1;
    }
    assert(locals@ =~= Seq::new(count as nat, |i: int| None::<LocalId>));
    locals
}

/// Lowers the body of one function.
#[verifier::spinoff_prover]
fn lower_function<'a>(
    analysis: &'a Analysis<'a>,
    semantic: &'a SemanticResult,
    types: Vec<Option<TypeId>>,
    program: Program,
    index: usize,
) -> (result: Result<(Vec<Option<TypeId>>, Program), &'static str>)
    requires
        analysis.source.wf(),
        index < analysis.function_signatures@.len(),
        index < program.functions@.len(),
    ensures
        match body_rule(
            body_context(
                analysis,
                semantic,
                types@,
                program_view(program),
                analysis.function_signatures@[index as int].id,
            ),
            fresh(program.locations@, program.failure_sites@, analysis.bindings@.len()),
            analysis.function_signatures@[index as int],
        ) {
            Err(fault) => result is Err && result->Err_0 == fault,
            Ok((s, start)) => result is Ok && result->Ok_0.0 == types && program_view(result->Ok_0.1)
                == (ProgramView {
                functions: program_view(program).functions.update(
                    index as int,
                    filled_function(program_view(program).functions[index as int], s, start),
                ),
                locations: s.locations,
                failure_sites: s.failure_sites,
                ..program_view(program)
            }) && result->Ok_0.1.functions@.len() == program.functions@.len(),
        },
{
    let signature = &analysis.function_signatures[index];
    let ghost before = program;
    let function = Function::new(program.functions[index].name.clone(), program.functions[index].result);
    let mut builder = Builder {
        analysis,
        semantic,
        program,
        types,
        function_id: signature.id,
        function,
        block: None,
        bindings: no_locals(analysis.bindings.len()),
        loops: Vec::new(),
        narrowings: Vec::new(),
        lowered_tests: Vec::new(),
    };
    proof {
        let expected = fresh(before.locations@, before.failure_sites@, analysis.bindings@.len());
        assert(builder@.parameters =~= expected.parameters);
        assert(builder@.locals =~= expected.locals);
        assert(builder@.blocks =~= expected.blocks);
        assert(builder@.loops =~= expected.loops);
        assert(builder@.narrowings =~= expected.narrowings);
        assert(builder@.tests =~= expected.tests);
        assert(builder@ =~= expected);
    }
    let ghost started = builder;
    let start = builder.body(signature)?;
    let Builder { program: lowered, types, function, .. } = builder;
    let mut program = lowered;
    let mut function = function;
    function.entry = Some(start);
    let ghost view = function_view(function);
    program.functions.set(index, function);
    proof {
        assert(program.functions@ =~= before.functions@.update(index as int, function));
        assert(function_views(program.functions@) =~= function_views(before.functions@).update(index as int, view));
        assert(started.function.name@ == before.functions@[index as int].name@);
    }
    Ok((types, program))
}

#[verifier::loop_isolation(false)]
fn lower_functions<'a>(
    analysis: &'a Analysis<'a>,
    semantic: &'a SemanticResult,
    types: Vec<Option<TypeId>>,
    program: Program,
) -> (result: Result<Program, &'static str>)
    requires
        analysis.source.wf(),
        program.functions@.len() == analysis.function_signatures@.len(),
    ensures
        match bodies_from(analysis, semantic, types@, program_view(program), 0) {
            Ok(view) => result is Ok && program_view(result->Ok_0) == view,
            Err(fault) => result is Err && result->Err_0 == fault,
        },
{
    let ghost mapped = types@;
    let ghost before = program;
    let mut types = types;
    let mut program = program;
    let mut index: usize = 0;
    while index < analysis.function_signatures.len()
        invariant
            index <= analysis.function_signatures@.len(),
            types@ == mapped,
            program.functions@.len() == analysis.function_signatures@.len(),
            bodies_from(analysis, semantic, mapped, program_view(program), index as int) == bodies_from(
                analysis,
                semantic,
                mapped,
                program_view(before),
                0,
            ),
        decreases analysis.function_signatures@.len() - index,
    {
        let (same_types, grown) = lower_function(analysis, semantic, types, program, index)?;
        types = same_types;
        program = grown;
        index += 1;
    }
    Ok(program)
}

/// Assembles the program that the facts of the front end stand for.
#[verifier::spinoff_prover]
pub fn assemble<'a>(analysis: &'a Analysis<'a>, semantic: &'a SemanticResult) -> (result: Result<Program, &'static str>)
    requires
        analysis.source.wf(),
    ensures
        match assembled(analysis, semantic) {
            Ok(view) => result is Ok && program_view(result->Ok_0) == view,
            Err(fault) => result is Err && result->Err_0 == fault,
        },
{
    let byte_len = analysis.source.text.as_str().as_bytes().len();
    let mut program = Program::new(analysis.source.path.clone(), byte_len);
    assert(type_views(program.types@) =~= seq![]);
    let types = map_types(analysis, &mut program)?;
    intern_nominals(analysis, &mut program);
    program.definitions = make_definitions(analysis, &types)?;
    program.functions = make_shells(analysis, &types)?;
    let start = find_start(analysis, semantic)?;
    program.entry = Some(start);
    proof {
        assert(program.locations@ =~= seq![]);
        assert(program.failure_sites@ =~= seq![]);
    }
    lower_functions(analysis, semantic, types, program)
}

} // verus!
