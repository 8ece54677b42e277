//! How union syntax is resolved, and how the types of a program change where a binding is narrowed.

use crate::analysis::{
    AccessPathStep, AlternativeView, AstNode, Binding, BindingId, BindingType, CallResolution, DeferredRecord,
    ExpressionAnnotation, FunctionId, FunctionSignature, NameResolution, NameUse, ProjectionKind,
    ProjectionResolution, ResolvedType, StructMember, TypeAnnotation, TypeDeclarationId, TypeDefinition,
    TypeDefinitionKind, TypeId, TypeName, TypeState, UnionStyle, alternative_views, latest, payload_of,
    primitive_type, unit_type,
};
use crate::ast::{
    BinaryOperator, Block, Expression, ExpressionBody, ExpressionBodyKind, ExpressionKind, MapEntry, Member,
    PrimitiveType, Statement, Type, TypeKind, UnaryOperator,
};
use crate::diagnostic::{
    DiagnosticKind, DiagnosticView, MAX_SOURCE_ERRORS, MAX_SOURCE_WARNINGS, located, reported, source_error,
};
use crate::lowering::rules::text_at;
use crate::source::{SourceFile, Span};
use vstd::prelude::*;
use vstd::utf8::encode_utf8;

verus! {

/// The contents of a type.
pub enum Shape {
    Unit,
    Primitive(PrimitiveType),
    List(TypeId),
    Mapping { key: TypeId, value: TypeId },
    Nominal(TypeDeclarationId),
    Union(Seq<AlternativeView>),
}

impl ResolvedType {
    pub open spec fn view(&self) -> Shape {
        match self {
            ResolvedType::Unit => Shape::Unit,
            ResolvedType::Primitive(primitive) => Shape::Primitive(*primitive),
            ResolvedType::List(element) => Shape::List(*element),
            ResolvedType::Mapping { key, value } => Shape::Mapping { key: *key, value: *value },
            ResolvedType::Nominal(declaration) => Shape::Nominal(*declaration),
            ResolvedType::Union(alternatives) => Shape::Union(alternative_views(alternatives@)),
        }
    }
}

/// The contents of the annotation of an assignment target.
pub struct TargetView {
    pub node: Span,
    pub root: Option<BindingId>,
    pub steps: Seq<AccessPathStep>,
    pub state: TypeState,
}

/// The contents of an injection into a union.
pub struct InjectionView {
    pub node: Span,
    pub union_type: TypeId,
    pub alternative: AlternativeView,
}

/// The contents of a resolved union test.
pub struct TestFact {
    pub expression: Span,
    pub operand_union: TypeId,
    pub alternative: AlternativeView,
    pub payload: TypeId,
    pub binding: Option<BindingId>,
}

/// The contents of a resolved arm.
pub struct ArmFact {
    pub arm: Span,
    pub alternative: AlternativeView,
    pub payload: TypeId,
}

/// The contents of a resolved `switch`.
pub struct SwitchFact {
    pub statement: Span,
    pub operand_union: TypeId,
    pub binding: Option<BindingId>,
    pub arms: Seq<ArmFact>,
    pub covered: Seq<AlternativeView>,
    pub else_body: Option<Span>,
    pub exhaustive: bool,
}

/// The contents of what a postfix `?` does with an error.
pub enum TryActionView {
    Propagate { function: FunctionId, destination_union: TypeId, destination_error: AlternativeView },
    Panic { function: FunctionId },
}

/// The contents of a resolved postfix `?`.
pub struct TryFact {
    pub expression: Span,
    pub operator_span: Span,
    pub operand_union: TypeId,
    pub source_error: AlternativeView,
    pub success: TypeId,
    pub widening: Option<TypeId>,
    pub action: TryActionView,
}

/// What does not change while union syntax is resolved.
pub struct UnionContext<'a> {
    pub source: &'a SourceFile,
    pub definitions: Seq<TypeDefinition<'a>>,
    pub signatures: Seq<FunctionSignature<'a>>,
    pub type_names: Seq<TypeName>,
    pub bindings: Seq<Binding>,
    pub names: Seq<NameUse>,
}

/// The function that is being looked at.
#[derive(Clone, Copy)]
pub struct Home {
    pub function: FunctionId,
    pub name: Span,
    pub result: TypeState,
}

/// What changes while union syntax is resolved.
#[verifier::ext_equal]
pub struct UnionState {
    pub types: Seq<Shape>,
    pub annotations: Seq<ExpressionAnnotation>,
    pub type_annotations: Seq<TypeAnnotation>,
    pub binding_types: Seq<BindingType>,
    pub deferred: Seq<DeferredRecord>,
    pub targets: Seq<TargetView>,
    pub projections: Seq<ProjectionResolution>,
    pub calls: Seq<CallResolution>,
    pub injection_subjects: Seq<InjectionView>,
    pub injections: Seq<InjectionView>,
    pub diagnostics: Seq<DiagnosticView>,
    pub warnings: Seq<DiagnosticView>,
    pub tests: Seq<TestFact>,
    pub switches: Seq<SwitchFact>,
    pub tries: Seq<TryFact>,
    pub narrowed: Seq<(BindingId, TypeId)>,
}

/// What is known of the type of an expression.
#[verifier::opaque]
pub open spec fn known(s: UnionState, expression: Span) -> TypeState {
    match latest(s.annotations, expression) {
        Some(i) => s.annotations[i].state,
        None => TypeState::Error,
    }
}

/// The open records about a node are settled.
pub open spec fn settled(records: Seq<DeferredRecord>, node: AstNode) -> Seq<DeferredRecord> {
    Seq::new(
        records.len(),
        |i: int|
            if records[i].node == node {
                DeferredRecord { resolved: true, ..records[i] }
            } else {
                records[i]
            },
    )
}

/// An expression gets a type.
#[verifier::opaque]
pub open spec fn retyped(s: UnionState, expression: Span, state: TypeState) -> UnionState {
    UnionState {
        deferred: settled(s.deferred, AstNode::Expression(expression)),
        annotations: s.annotations.push(ExpressionAnnotation { node: expression, state }),
        ..s
    }
}

/// An expression gets a type that it does not have yet.
#[verifier::opaque]
pub open spec fn changed(s: UnionState, expression: Span, state: TypeState) -> UnionState {
    if known(s, expression) != state {
        retyped(s, expression, state)
    } else {
        s
    }
}

/// A `switch` is settled.
#[verifier::opaque]
pub open spec fn statement_settled(s: UnionState, statement: Span) -> UnionState {
    UnionState { deferred: settled(s.deferred, AstNode::Statement(statement)), ..s }
}

/// An error in the source is reported.
#[verifier::opaque]
pub open spec fn objected(c: UnionContext, s: UnionState, span: Span, message: Seq<char>) -> UnionState {
    UnionState {
        diagnostics: reported(s.diagnostics, source_error(c.source, span, message), MAX_SOURCE_ERRORS as nat),
        ..s
    }
}

/// A part that control never gets to is reported.
#[verifier::opaque]
pub open spec fn cautioned(c: UnionContext, s: UnionState, span: Span) -> UnionState {
    UnionState {
        warnings: reported(
            s.warnings,
            located(DiagnosticKind::SourceWarning, c.source, span, "unreachable source"@),
            MAX_SOURCE_WARNINGS as nat,
        ),
        ..s
    }
}

/// An expression whose type cannot be found is reported, where its type was still open.
#[verifier::opaque]
pub open spec fn unsupported(c: UnionContext, s: UnionState, expression: Span, message: Seq<char>) -> UnionState {
    if known(s, expression) is Deferred {
        retyped(objected(c, s, expression, message), expression, TypeState::Error)
    } else {
        s
    }
}

/// The first place from one on that a type stands at.
pub open spec fn shape_from(types: Seq<Shape>, shape: Shape, from: int) -> Option<int>
    decreases types.len() - from,
{
    if from < 0 || from >= types.len() {
        None
    } else if types[from] == shape {
        Some(from)
    } else {
        shape_from(types, shape, from + 1)
    }
}

/// The identity of a type, which is listed if it is new.
#[verifier::opaque]
pub open spec fn interned(s: UnionState, shape: Shape) -> (UnionState, TypeId) {
    match shape_from(s.types, shape, 0) {
        Some(i) => (s, TypeId(i as usize)),
        None => (UnionState { types: s.types.push(shape), ..s }, TypeId(s.types.len() as usize)),
    }
}

/// What the type with an identity is.
pub open spec fn shape_of(s: UnionState, ty: TypeId) -> Option<Shape> {
    if ty.0 < s.types.len() {
        Some(s.types[ty.0 as int])
    } else {
        None
    }
}

/// The style of a union without a name.
pub open spec fn style_of(alternatives: Seq<AlternativeView>) -> UnionStyle {
    if exists|i: int| 0 <= i < alternatives.len() && #[trigger] alternatives[i] is Tagged {
        UnionStyle::Tagged
    } else {
        UnionStyle::Untagged
    }
}

/// The parts of a type that is a union.
#[verifier::opaque]
pub open spec fn parts(c: UnionContext, s: UnionState, state: TypeState) -> Option<
    (TypeId, UnionStyle, Seq<AlternativeView>),
> {
    match state {
        TypeState::Resolved(ty) => match shape_of(s, ty) {
            Some(Shape::Union(alternatives)) => Some((ty, style_of(alternatives), alternatives)),
            Some(Shape::Nominal(declaration)) => if declaration.0 < c.definitions.len() {
                match c.definitions[declaration.0 as int].kind {
                    TypeDefinitionKind::Union { style, alternatives } => Some(
                        (ty, style, alternative_views(alternatives@)),
                    ),
                    _ => None,
                }
            } else {
                None
            },
            _ => None,
        },
        _ => None,
    }
}

/// The binding that a name stands for.
#[verifier::opaque]
pub open spec fn bound(c: UnionContext, name: Span) -> Option<BindingId> {
    match latest(c.names, name) {
        Some(i) => match c.names[i].resolution {
            NameResolution::Binding(binding) => Some(binding),
            _ => None,
        },
        None => None,
    }
}

/// The expression inside of parentheses.
pub open spec fn bare(e: &Expression) -> &Expression
    decreases e,
{
    match &e.kind {
        ExpressionKind::Parenthesized(inner) => bare(inner),
        _ => e,
    }
}

/// The type inside of parentheses.
pub open spec fn bare_type(ty: &Type) -> &Type
    decreases ty,
{
    match &ty.kind {
        TypeKind::Parenthesized(inner) => bare_type(inner),
        _ => ty,
    }
}

/// The binding that an expression is just the name of.
#[verifier::opaque]
pub open spec fn exact(c: UnionContext, e: &Expression) -> Option<BindingId> {
    match &bare(e).kind {
        ExpressionKind::Identifier(identifier) => bound(c, identifier.span),
        _ => None,
    }
}

/// The type that a binding is narrowed to.
pub open spec fn narrowed_to(narrowed: Seq<(BindingId, TypeId)>, binding: BindingId) -> Option<TypeId>
    decreases narrowed.len(),
{
    if narrowed.len() == 0 {
        None
    } else if narrowed.last().0 == binding {
        Some(narrowed.last().1)
    } else {
        narrowed_to(narrowed.drop_last(), binding)
    }
}

/// The narrowings of other bindings.
pub open spec fn without(narrowed: Seq<(BindingId, TypeId)>, binding: BindingId) -> Seq<(BindingId, TypeId)>
    decreases narrowed.len(),
{
    if narrowed.len() == 0 {
        seq![]
    } else if narrowed.last().0 == binding {
        without(narrowed.drop_last(), binding)
    } else {
        without(narrowed.drop_last(), binding).push(narrowed.last())
    }
}

#[verifier::opaque]
pub open spec fn widened(s: UnionState, binding: BindingId) -> UnionState {
    UnionState { narrowed: without(s.narrowed, binding), ..s }
}

#[verifier::opaque]
pub open spec fn narrowed_by(s: UnionState, binding: BindingId, ty: TypeId) -> UnionState {
    UnionState { narrowed: without(s.narrowed, binding).push((binding, ty)), ..s }
}

#[verifier::opaque]
pub open spec fn with_narrowed(s: UnionState, narrowed: Seq<(BindingId, TypeId)>) -> UnionState {
    UnionState { narrowed, ..s }
}

/// The narrowings of several bindings from one on are gone.
pub open spec fn widened_from(s: UnionState, bindings: Seq<BindingId>, from: int) -> UnionState
    decreases bindings.len() - from,
{
    if from < 0 || from >= bindings.len() {
        s
    } else {
        widened_from(widened(s, bindings[from]), bindings, from + 1)
    }
}

/// The latest union test among the first `count` that an expression is.
pub open spec fn test_before(tests: Seq<TestFact>, expression: Span, count: int) -> Option<int>
    decreases count,
{
    if count <= 0 {
        None
    } else if tests[count - 1].expression == expression {
        Some(count - 1)
    } else {
        test_before(tests, expression, count - 1)
    }
}

/// What a condition says of a binding where it holds.
#[verifier::opaque]
pub open spec fn tested(s: UnionState, condition: &Expression) -> Option<(BindingId, TypeId)> {
    match test_before(s.tests, bare(condition).span, s.tests.len() as int) {
        Some(i) => match s.tests[i].binding {
            Some(binding) => Some((binding, s.tests[i].payload)),
            None => None,
        },
        None => None,
    }
}

/// Where a condition holds.
#[verifier::opaque]
pub open spec fn where_holds(s: UnionState, condition: &Expression) -> UnionState {
    match tested(s, condition) {
        Some((binding, payload)) => narrowed_by(s, binding, payload),
        None => s,
    }
}

/// A value is put into a union.
#[verifier::opaque]
pub open spec fn injected(s: UnionState, value: Span, union_type: TypeId, alternative: AlternativeView) -> UnionState {
    let injection = InjectionView { node: value, union_type, alternative };
    UnionState {
        injection_subjects: s.injection_subjects.push(injection),
        injections: s.injections.push(injection),
        ..s
    }
}

/// Alternatives among the first `count` that carry a type.
pub open spec fn carrying(alternatives: Seq<AlternativeView>, payload: TypeId, count: int) -> Seq<AlternativeView>
    decreases count,
{
    if count <= 0 {
        seq![]
    } else if payload_of(alternatives[count - 1]) == payload {
        carrying(alternatives, payload, count - 1).push(alternatives[count - 1])
    } else {
        carrying(alternatives, payload, count - 1)
    }
}

/// Error alternatives, or the others, among the first `count`.
pub open spec fn errors_in(alternatives: Seq<AlternativeView>, errors: bool, count: int) -> Seq<AlternativeView>
    decreases count,
{
    if count <= 0 {
        seq![]
    } else if (alternatives[count - 1] is Error) == errors {
        errors_in(alternatives, errors, count - 1).push(alternatives[count - 1])
    } else {
        errors_in(alternatives, errors, count - 1)
    }
}

/// Whether the success of a postfix `?` is part of a wider union.
#[verifier::opaque]
pub open spec fn widens(c: UnionContext, s: UnionState, value: &Expression, actual: TypeId, expected: TypeId) -> bool {
    &&& bare(value).kind is Try
    &&& shape_of(s, actual) matches Some(Shape::Union(alternatives))
    &&& alternatives.len() > 0
    &&& parts(c, s, TypeState::Resolved(expected)) matches Some((_, _, wider))
    &&& forall|i: int| 0 <= i < alternatives.len() ==> wider.contains(#[trigger] alternatives[i])
}

/// The first postfix `?` from one on that an expression is.
pub open spec fn try_at(tries: Seq<TryFact>, expression: Span, from: int) -> Option<int>
    decreases tries.len() - from,
{
    if from < 0 || from >= tries.len() {
        None
    } else if tries[from].expression == expression {
        Some(from)
    } else {
        try_at(tries, expression, from + 1)
    }
}

/// The success of a postfix `?` is put into a wider union.
#[verifier::opaque]
pub open spec fn try_widened(s: UnionState, expression: Span, ty: TypeId) -> UnionState {
    match try_at(s.tries, expression, 0) {
        Some(i) => UnionState { tries: s.tries.update(i, TryFact { widening: Some(ty), ..s.tries[i] }), ..s },
        None => s,
    }
}

/// A value is where another type is expected.
#[verifier::opaque]
pub open spec fn expected_value(
    c: UnionContext,
    s: UnionState,
    value: &Expression,
    expected: TypeId,
    message: Seq<char>,
) -> UnionState {
    match known(s, value.span) {
        TypeState::Resolved(actual) => if actual == expected {
            s
        } else if widens(c, s, value, actual, expected) {
            try_widened(s, bare(value).span, expected)
        } else {
            let fitting = match parts(c, s, TypeState::Resolved(expected)) {
                Some((_, _, alternatives)) => carrying(alternatives, actual, alternatives.len() as int),
                None => seq![],
            };
            if fitting.len() == 1 {
                injected(s, value.span, expected, fitting[0])
            } else {
                objected(c, s, value.span, message)
            }
        },
        _ => s,
    }
}

/// A value is returned.
#[verifier::opaque]
pub open spec fn result_value(c: UnionContext, s: UnionState, home: Home, value: &Expression) -> UnionState {
    match home.result {
        TypeState::Resolved(expected) => expected_value(
            c,
            s,
            value,
            expected,
            if expected == unit_type() {
                "unit-returning function cannot return a non-unit value"@
            } else {
                "return value type does not match function result type"@
            },
        ),
        _ => s,
    }
}

/// A name of a narrowed binding.
#[verifier::opaque]
pub open spec fn name_typed(c: UnionContext, s: UnionState, expression: Span, name: Span) -> UnionState {
    match bound(c, name) {
        Some(binding) => match narrowed_to(s.narrowed, binding) {
            Some(ty) => retyped(s, expression, TypeState::Resolved(ty)),
            None => s,
        },
        None => s,
    }
}

/// An operator with one operand.
#[verifier::opaque]
pub open spec fn unary_typed(
    c: UnionContext,
    s: UnionState,
    expression: Span,
    operator: UnaryOperator,
    operand: TypeState,
) -> UnionState {
    match operand {
        TypeState::Resolved(ty) => {
            let valid = match operator {
                UnaryOperator::LogicalNot => ty == primitive_type(PrimitiveType::Bool),
                UnaryOperator::BitwiseNot => ty == primitive_type(PrimitiveType::Int),
                UnaryOperator::Plus => ty == primitive_type(PrimitiveType::Int) || ty == primitive_type(
                    PrimitiveType::Float,
                ),
                UnaryOperator::Minus => ty == primitive_type(PrimitiveType::Int) || ty == primitive_type(
                    PrimitiveType::Float,
                ),
            };
            if valid {
                changed(s, expression, TypeState::Resolved(ty))
            } else {
                unsupported(c, s, expression, "unary operator is not defined for the narrowed operand type"@)
            }
        },
        _ => s,
    }
}

/// What an operator with two operands gives, if it fits them.
pub open spec fn binary_result(s: UnionState, operator: BinaryOperator, left: TypeId, right: TypeId) -> Option<TypeId> {
    let bool_type = primitive_type(PrimitiveType::Bool);
    let contained = match shape_of(s, right) {
        Some(Shape::List(element)) => element == left,
        Some(Shape::Mapping { key, .. }) => key == left,
        _ => false,
    };
    if (operator == BinaryOperator::LogicalOr || operator == BinaryOperator::LogicalAnd) && left == bool_type && right
        == bool_type {
        Some(bool_type)
    } else if (operator == BinaryOperator::Equal || operator == BinaryOperator::NotEqual || operator
        == BinaryOperator::Less || operator == BinaryOperator::LessEqual || operator == BinaryOperator::Greater
        || operator == BinaryOperator::GreaterEqual) && left == right {
        Some(bool_type)
    } else if operator == BinaryOperator::In && contained {
        Some(bool_type)
    } else if left == right {
        Some(left)
    } else {
        None
    }
}

/// An operator with two operands.
#[verifier::opaque]
pub open spec fn binary_typed(
    c: UnionContext,
    s: UnionState,
    expression: Span,
    operator: BinaryOperator,
    left: TypeState,
    right: TypeState,
) -> UnionState {
    match (left, right) {
        (TypeState::Resolved(left), TypeState::Resolved(right)) => match binary_result(s, operator, left, right) {
            Some(result) => changed(s, expression, TypeState::Resolved(result)),
            None => unsupported(c, s, expression, "operator is not defined for the narrowed operand types"@),
        },
        _ => s,
    }
}

/// A list whose elements have one type.
#[verifier::opaque]
pub open spec fn list_typed(s: UnionState, expression: Span, elements: Seq<Expression>) -> UnionState {
    if elements.len() > 0 {
        match known(s, elements[0].span) {
            TypeState::Resolved(element) => if forall|i: int|
                0 <= i < elements.len() ==> known(s, (#[trigger] elements[i]).span) == TypeState::Resolved(element) {
                let (s, list) = interned(s, Shape::List(element));
                changed(s, expression, TypeState::Resolved(list))
            } else {
                s
            },
            _ => s,
        }
    } else {
        s
    }
}

/// Whether all entries have the given types.
pub open spec fn entries_have(s: UnionState, entries: Seq<MapEntry>, key: TypeId, value: TypeId) -> bool {
    forall|i: int|
        0 <= i < entries.len() ==> known(s, (#[trigger] entries[i]).key.span) == TypeState::Resolved(key) && known(
            s,
            entries[i].value.span,
        ) == TypeState::Resolved(value)
}

/// A map whose entries have one type of key and one of value.
#[verifier::opaque]
pub open spec fn mapping_typed(s: UnionState, expression: Span, entries: Seq<MapEntry>) -> UnionState {
    if entries.len() > 0 {
        match (known(s, entries[0].key.span), known(s, entries[0].value.span)) {
            (TypeState::Resolved(key), TypeState::Resolved(value)) => if entries_have(s, entries, key, value) {
                let (s, mapping) = interned(s, Shape::Mapping { key, value });
                changed(s, expression, TypeState::Resolved(mapping))
            } else {
                s
            },
            _ => s,
        }
    } else {
        s
    }
}

/// The type of the value of a block.
#[verifier::opaque]
pub open spec fn block_value(s: UnionState, block: &Block) -> TypeState {
    match &block.value {
        Some(value) => known(s, value.span),
        None => TypeState::Resolved(unit_type()),
    }
}

/// The type of the value of a branch.
#[verifier::opaque]
pub open spec fn body_value(s: UnionState, body: &ExpressionBody) -> TypeState {
    match &body.kind {
        ExpressionBodyKind::Expression(expression) => known(s, expression.span),
        ExpressionBodyKind::Block(block) => block_value(s, block),
    }
}

/// The first settled type from one on.
pub open spec fn first_resolved(states: Seq<TypeState>, from: int) -> Option<TypeId>
    decreases states.len() - from,
{
    if from < 0 || from >= states.len() {
        None
    } else {
        match states[from] {
            TypeState::Resolved(ty) => Some(ty),
            _ => first_resolved(states, from + 1),
        }
    }
}

/// A choice whose branches have one type.
#[verifier::opaque]
pub open spec fn choice_typed(s: UnionState, expression: Span, states: Seq<TypeState>) -> UnionState {
    match first_resolved(states, 0) {
        Some(ty) => if forall|i: int|
            0 <= i < states.len() ==> #[trigger] states[i] == TypeState::Resolved(ty) || states[i] == TypeState::Never {
            changed(s, expression, TypeState::Resolved(ty))
        } else {
            s
        },
        None => s,
    }
}

/// The number that the text of a tuple position denotes: digits and underscores, perhaps behind a plus sign.
pub open spec fn number_in(bytes: Seq<u8>, from: int, begun: bool, value: Option<usize>) -> Option<usize>
    decreases bytes.len() - from,
{
    if from < 0 || from >= bytes.len() {
        value
    } else if bytes[from] == 0x5F {
        number_in(bytes, from + 1, begun, value)
    } else if bytes[from] == 0x2B && !begun {
        number_in(bytes, from + 1, true, None)
    } else if 0x30 <= bytes[from] <= 0x39 {
        let before: int = match value {
            Some(value) => value as int,
            None => 0,
        };
        let next = before * 10 + (bytes[from] - 0x30);
        if next <= usize::MAX {
            number_in(bytes, from + 1, true, Some(next as usize))
        } else {
            None
        }
    } else {
        None
    }
}

/// The position that a tuple index denotes.
#[verifier::opaque]
pub open spec fn position_at(source: &SourceFile, span: Span) -> Option<usize> {
    number_in(encode_utf8(text_at(source, span)), 0, false, None)
}

/// The first member from one on with a name.
pub open spec fn member_named(
    source: &SourceFile,
    members: Seq<StructMember>,
    name: Seq<char>,
    from: int,
) -> Option<int>
    decreases members.len() - from,
{
    if from < 0 || from >= members.len() {
        None
    } else if text_at(source, members[from].name) == name {
        Some(from)
    } else {
        member_named(source, members, name, from + 1)
    }
}

/// The member of a value of a named type, and how it is got at.
#[verifier::opaque]
pub open spec fn member_of(c: UnionContext, s: UnionState, receiver: TypeId, member: Member) -> Option<
    (TypeState, Option<ProjectionKind>),
> {
    match shape_of(s, receiver) {
        Some(Shape::Nominal(declaration)) => if declaration.0 < c.definitions.len() {
            match (c.definitions[declaration.0 as int].kind, member) {
                (TypeDefinitionKind::Struct(members), Member::Named(name)) => match member_named(
                    c.source,
                    members@,
                    text_at(c.source, name.span),
                    0,
                ) {
                    Some(field) => Some(
                        (
                            members@[field].ty,
                            match members@[field].ty {
                                TypeState::Resolved(result) => Some(
                                    ProjectionKind::Struct {
                                        declaration,
                                        field: field as usize,
                                        storage: members@[field].storage,
                                        result,
                                    },
                                ),
                                _ => None,
                            },
                        ),
                    ),
                    None => None,
                },
                (TypeDefinitionKind::Tuple(members), Member::TupleIndex(span)) => match position_at(c.source, span) {
                    Some(position) => if position < members@.len() {
                        Some(
                            (
                                members@[position as int].ty,
                                match members@[position as int].ty {
                                    TypeState::Resolved(result) => Some(
                                        ProjectionKind::Tuple { declaration, position, result },
                                    ),
                                    _ => None,
                                },
                            ),
                        )
                    } else {
                        None
                    },
                    None => None,
                },
                _ => None,
            }
        } else {
            None
        },
        _ => None,
    }
}

/// How an expression gets at a part of a value, where that is not stated yet.
#[verifier::opaque]
pub open spec fn projected(s: UnionState, expression: Span, kind: Option<ProjectionKind>) -> UnionState {
    match kind {
        Some(kind) => if latest(s.projections, expression) is None {
            UnionState { projections: s.projections.push(ProjectionResolution { node: expression, kind }), ..s }
        } else {
            s
        },
        None => s,
    }
}

/// A member access.
#[verifier::opaque]
pub open spec fn member_typed(
    c: UnionContext,
    s: UnionState,
    expression: Span,
    value: Span,
    member: Member,
) -> UnionState {
    match known(s, value) {
        TypeState::Resolved(receiver) => match member_of(c, s, receiver, member) {
            Some((state, projection)) => changed(projected(s, expression, projection), expression, state),
            None => unsupported(c, s, expression, "member is not available on the narrowed alternative"@),
        },
        _ => s,
    }
}

/// What an index access gives.
pub open spec fn indexed(s: UnionState, value: TypeId, index: TypeId) -> Option<(TypeId, ProjectionKind)> {
    let int_type = primitive_type(PrimitiveType::Int);
    match shape_of(s, value) {
        Some(Shape::List(element)) => if index == int_type {
            Some((element, ProjectionKind::List { element }))
        } else {
            None
        },
        Some(Shape::Mapping { key, value }) => if index == key {
            Some((value, ProjectionKind::Mapping { key, value }))
        } else {
            None
        },
        Some(Shape::Primitive(PrimitiveType::Str)) => if index == int_type {
            Some(
                (
                    primitive_type(PrimitiveType::Char),
                    ProjectionKind::String { result: primitive_type(PrimitiveType::Char) },
                ),
            )
        } else {
            None
        },
        _ => None,
    }
}

/// An index access.
#[verifier::opaque]
pub open spec fn index_typed(c: UnionContext, s: UnionState, expression: Span, value: Span, index: Span) -> UnionState {
    match (known(s, value), known(s, index)) {
        (TypeState::Resolved(value), TypeState::Resolved(index)) => match indexed(s, value, index) {
            Some((result, projection)) => changed(
                projected(s, expression, Some(projection)),
                expression,
                TypeState::Resolved(result),
            ),
            None => unsupported(
                c,
                s,
                expression,
                "index operation is not defined for the narrowed alternative"@,
            ),
        },
        _ => s,
    }
}

} // verus!
