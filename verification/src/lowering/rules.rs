//! How the facts about a program decide what its parts become: the rules without recursion over syntax.

use crate::analysis::{
    self, AlternativeView, BindingId, CallTarget, CallableId, ConstructorKind, Fact, IntrinsicId, LiteralValue,
    MemberStorage, ProjectionKind, ResolvedType, TypeDeclarationId, TypeDefinitionKind, TypeId as SourceType,
    TypeState, UnionAlternative, facts_of, injection_of, latest, payload_of, state_of,
};
use crate::ast::{
    AssignmentOperator, BinaryOperator as SourceOperator, PrimitiveType, UnaryOperator as SourceUnary,
};
use crate::ir::{
    self, AlternativeId, BinaryOperator, BlockId, BuiltinMethod, ConstantView, DefinitionId, FailureOperation,
    FailureSiteId, FieldId, FunctionId, IntegerOperation, Intrinsic, LocalId, LocalOrigin, NumericConversion,
    OperandView, PlaceView, Projection, TypeId, TypeView, UnaryOperator, first_index,
};
use crate::lowering::model::{
    AggregateView, CheckView, Context, LayoutView, LoopView, Narrowing, OperationView, Outcome, State,
    TerminatorView, TestView, emit, entered, fail, finish, left, mapped, open_block, seal, temporary, value_of,
    whole,
};
use crate::semantic::{FlowSubject, SwitchResolution, TryAction, TryResolution};
use crate::semantic::flow::FallthroughKind;
use crate::semantic::handoff::{record_from, records_before};
use crate::source::{SourceFile, Span};
use crate::text::boundary;
use vstd::prelude::*;
use vstd::utf8::*;

verus! {

/// Whether control reaches the end of a part of the program.
#[verifier::opaque]
pub open spec fn flow_of(c: Context, subject: FlowSubject, fault: &'static str) -> Result<bool, &'static str> {
    let records = c.semantic.flow.summaries@;
    match record_from(records, subject, 0) {
        Some(i) => if records_before(records, subject, records.len() as int) == 1 {
            Ok(records[i].summary.fallthrough != FallthroughKind::Never)
        } else {
            Err(fault)
        },
        None => Err(fault),
    }
}

/// The index of the only fact about a node.
#[verifier::opaque]
pub open spec fn only<T: Fact>(facts: Seq<T>, node: Span) -> Option<int> {
    if facts_of(facts, node) == 1 {
        latest(facts, node)
    } else {
        None
    }
}

/// The text of a span.
#[verifier::opaque]
pub open spec fn text_at(source: &SourceFile, span: Span) -> Seq<char> {
    let bytes = source.bytes();
    if span.start <= span.end <= bytes.len() && boundary(bytes, span.start as int) && boundary(bytes, span.end as int) {
        decode_utf8(bytes.subrange(span.start as int, span.end as int))
    } else {
        seq![]
    }
}

/// The type of the value of an expression.
pub open spec fn value_type(c: Context, expression: Span) -> Result<SourceType, &'static str> {
    match state_of(c.analysis, expression) {
        Some(TypeState::Resolved(ty)) => Ok(ty),
        _ => Err("expression lacks a resolved value type"),
    }
}

/// The type of the value of an expression before it is put into a union.
#[verifier::opaque]
pub open spec fn raw_type(c: Context, expression: Span) -> Result<SourceType, &'static str> {
    match injection_of(c.analysis, expression) {
        Some((_, alternative)) => Ok(payload_of(alternative)),
        None => value_type(c, expression),
    }
}

/// Whether a type of the analysis is a primitive one.
pub open spec fn is_primitive(c: Context, ty: SourceType, primitive: PrimitiveType) -> bool {
    c.analysis.types.has(ty) && c.analysis.types.entries@[ty.0 as int] == ResolvedType::Primitive(primitive)
}

/// A constant of a type of the analysis.
#[verifier::opaque]
pub open spec fn constant(c: Context, ty: SourceType, value: ConstantView) -> Result<OperandView, &'static str> {
    match mapped(c, ty) {
        Err(fault) => Err(fault),
        Ok(ty) => Ok(OperandView::Constant { ty, value }),
    }
}

/// The value of a literal.
pub open spec fn literal_value(value: LiteralValue) -> Result<ConstantView, &'static str> {
    match value {
        LiteralValue::Integer(value) => if value <= i64::MAX {
            Ok(ConstantView::Integer(value as i64))
        } else {
            Err("positive integer literal exceeds signed int range")
        },
        LiteralValue::Float(bits) => Ok(ConstantView::Float(bits)),
        LiteralValue::String(bytes) => Ok(ConstantView::Text(bytes@)),
        LiteralValue::Character(byte) => Ok(ConstantView::Character(byte)),
        LiteralValue::Boolean(value) => Ok(ConstantView::Boolean(value)),
    }
}

#[verifier::opaque]
pub open spec fn literal_constant(c: Context, expression: Span) -> Result<OperandView, &'static str> {
    match latest(c.analysis.literals@, expression) {
        None => Err("literal fact is missing"),
        Some(i) => match literal_value(c.analysis.literals@[i].value) {
            Err(fault) => Err(fault),
            Ok(value) => match raw_type(c, expression) {
                Err(fault) => Err(fault),
                Ok(ty) => constant(c, ty, value),
            },
        },
    }
}

/// Whether an expression is the literal for the magnitude of the smallest integer.
#[verifier::opaque]
pub open spec fn is_smallest(c: Context, expression: Span) -> bool {
    latest(c.analysis.literals@, expression) matches Some(i) && c.analysis.literals@[i].value == LiteralValue::Integer(
        0x8000_0000_0000_0000,
    )
}

/// A new value made of others.
#[verifier::opaque]
pub open spec fn aggregate(c: Context, s: State, expression: Span, aggregate: AggregateView) -> Outcome<OperandView> {
    match raw_type(c, expression) {
        Err(fault) => Err(fault),
        Ok(ty) => match temporary(c, s, ty) {
            Err(fault) => Err(fault),
            Ok((s, destination)) => match emit(s, OperationView::Aggregate { destination, aggregate }, expression) {
                Err(fault) => Err(fault),
                Ok((s, _)) => Ok((s, value_of(destination))),
            },
        },
    }
}

/// The type of what a projection selects.
pub open spec fn projected(c: Context, ty: TypeId, projection: Projection) -> Result<TypeId, &'static str> {
    match projection {
        Projection::StructField { definition, field, .. } => if definition.0 < c.definitions.len() {
            match c.definitions[definition.0 as int].layout {
                LayoutView::Struct(fields) => if field.0 < fields.len() {
                    Ok(fields[field.0 as int].1)
                } else {
                    Err("invalid projected struct field")
                },
                _ => Err("struct projection selects a non-struct"),
            }
        } else {
            Err("struct projection selects a non-struct")
        },
        Projection::TupleField { definition, field } => if definition.0 < c.definitions.len() {
            match c.definitions[definition.0 as int].layout {
                LayoutView::Tuple(fields) => if field.0 < fields.len() {
                    Ok(fields[field.0 as int])
                } else {
                    Err("invalid projected tuple field")
                },
                _ => Err("tuple projection selects a non-tuple"),
            }
        } else {
            Err("tuple projection selects a non-tuple")
        },
        Projection::ListIndex { .. } => if ty.0 < c.program_types.len() {
            match c.program_types[ty.0 as int] {
                TypeView::List(element) => Ok(element),
                _ => Err("list projection selects a non-list"),
            }
        } else {
            Err("list projection selects a non-list")
        },
        Projection::MapIndex { .. } => if ty.0 < c.program_types.len() {
            match c.program_types[ty.0 as int] {
                TypeView::Mapping { value, .. } => Ok(value),
                _ => Err("map projection selects a non-map"),
            }
        } else {
            Err("map projection selects a non-map")
        },
    }
}

/// The type behind the projections of a place from one on.
pub open spec fn projected_from(c: Context, ty: TypeId, projections: Seq<Projection>, from: int) -> Result<
    TypeId,
    &'static str,
>
    decreases projections.len() - from,
{
    if from < 0 || from >= projections.len() {
        Ok(ty)
    } else {
        match projected(c, ty, projections[from]) {
            Err(fault) => Err(fault),
            Ok(ty) => projected_from(c, ty, projections, from + 1),
        }
    }
}

/// The type of an operand.
pub open spec fn operand_type(c: Context, s: State, operand: OperandView) -> Result<TypeId, &'static str> {
    match operand {
        OperandView::Constant { ty, .. } => Ok(ty),
        OperandView::Copy(place) => if place.local.0 < s.locals.len() {
            projected_from(c, s.locals[place.local.0 as int].ty, place.projections, 0)
        } else {
            Err("invalid local in operand")
        },
    }
}

/// The type of the analysis that an operand is of.
#[verifier::opaque]
pub open spec fn source_type(c: Context, s: State, operand: OperandView) -> Result<SourceType, &'static str> {
    match operand_type(c, s, operand) {
        Err(fault) => Err(fault),
        Ok(ty) => match first_index(c.types, Some(ty)) {
            Some(index) => Ok(SourceType(index as usize)),
            None => Err("IR operand type has no frontend mapping"),
        },
    }
}

/// Whether an operand is an unnamed local as a whole.
pub open spec fn is_temporary(s: State, operand: OperandView) -> bool {
    operand matches OperandView::Copy(place) && place.projections.len() == 0 && place.local.0 < s.locals.len()
        && s.locals[place.local.0 as int].origin == LocalOrigin::Temporary
}

/// A copy of an operand in a new local.
#[verifier::opaque]
pub open spec fn copied(c: Context, s: State, operand: OperandView, span: Span) -> Outcome<OperandView> {
    match source_type(c, s, operand) {
        Err(fault) => Err(fault),
        Ok(ty) => match temporary(c, s, ty) {
            Err(fault) => Err(fault),
            Ok((s, destination)) => match emit(s, OperationView::Copy { destination, operand }, span) {
                Err(fault) => Err(fault),
                Ok((s, _)) => Ok((s, value_of(destination))),
            },
        },
    }
}

/// An operand that nothing later can change.
#[verifier::opaque]
pub open spec fn stabilized(c: Context, s: State, operand: OperandView, span: Span) -> Outcome<OperandView> {
    if operand is Constant || is_temporary(s, operand) {
        Ok((s, operand))
    } else {
        copied(c, s, operand, span)
    }
}

/// An operand that is an unnamed local.
#[verifier::opaque]
pub open spec fn materialized(c: Context, s: State, operand: OperandView, span: Span) -> Outcome<OperandView> {
    if is_temporary(s, operand) {
        Ok((s, operand))
    } else {
        copied(c, s, operand, span)
    }
}

/// How an arithmetic operation can fail.
pub open spec fn failure_of(operator: BinaryOperator, is_int: bool, is_float: bool) -> Option<FailureOperation> {
    if is_int {
        match operator {
            BinaryOperator::Add => Some(FailureOperation::IntegerAdd),
            BinaryOperator::Subtract => Some(FailureOperation::IntegerSubtract),
            BinaryOperator::Multiply => Some(FailureOperation::IntegerMultiply),
            BinaryOperator::Divide => Some(FailureOperation::IntegerDivision),
            BinaryOperator::Remainder => Some(FailureOperation::IntegerRemainder),
            BinaryOperator::ShiftLeft => Some(FailureOperation::ShiftLeft),
            BinaryOperator::ShiftRight => Some(FailureOperation::ShiftRight),
            _ => None,
        }
    } else if is_float {
        match operator {
            BinaryOperator::Add => Some(FailureOperation::FloatAdd),
            BinaryOperator::Subtract => Some(FailureOperation::FloatSubtract),
            BinaryOperator::Multiply => Some(FailureOperation::FloatMultiply),
            BinaryOperator::Divide => Some(FailureOperation::FloatDivision),
            _ => None,
        }
    } else {
        None
    }
}

/// What is checked before an arithmetic operation.
pub open spec fn check_of(
    operator: BinaryOperator,
    is_int: bool,
    left: OperandView,
    right: OperandView,
    failure: FailureSiteId,
) -> Option<CheckView> {
    match operator {
        BinaryOperator::Add => if is_int {
            Some(CheckView::IntegerOverflow { operation: IntegerOperation::Add, left, right, failure })
        } else {
            None
        },
        BinaryOperator::Subtract => if is_int {
            Some(CheckView::IntegerOverflow { operation: IntegerOperation::Subtract, left, right, failure })
        } else {
            None
        },
        BinaryOperator::Multiply => if is_int {
            Some(CheckView::IntegerOverflow { operation: IntegerOperation::Multiply, left, right, failure })
        } else {
            None
        },
        BinaryOperator::Divide => Some(CheckView::Division { left, right, failure }),
        BinaryOperator::Remainder => Some(CheckView::Remainder { left, right, failure }),
        BinaryOperator::ShiftLeft => Some(CheckView::ShiftRange { amount: right, failure }),
        BinaryOperator::ShiftRight => Some(CheckView::ShiftRange { amount: right, failure }),
        _ => None,
    }
}

/// The checks that stand before an arithmetic operation that can fail.
pub open spec fn checked(
    s: State,
    operator: BinaryOperator,
    is_int: bool,
    left: OperandView,
    right: OperandView,
    failure: FailureSiteId,
    span: Span,
) -> Outcome<()> {
    let first = match check_of(operator, is_int, left, right, failure) {
        Some(check) => emit(s, OperationView::Check(check), span),
        None => Ok((s, ())),
    };
    match first {
        Err(fault) => Err(fault),
        Ok((s, _)) => if operator == BinaryOperator::ShiftLeft && is_int {
            emit(
                s,
                OperationView::Check(
                    CheckView::IntegerOverflow { operation: IntegerOperation::ShiftLeft, left, right, failure },
                ),
                span,
            )
        } else {
            Ok((s, ()))
        },
    }
}

/// Whether the result of an operation on floats must be finite.
pub open spec fn must_be_finite(operator: BinaryOperator) -> bool {
    operator == BinaryOperator::Add || operator == BinaryOperator::Subtract || operator == BinaryOperator::Multiply
        || operator == BinaryOperator::Divide
}

/// A binary operation with everything that is checked before and after it.
#[verifier::opaque]
pub open spec fn checked_binary(
    c: Context,
    s: State,
    result: SourceType,
    operator: BinaryOperator,
    left: OperandView,
    right: OperandView,
    failure_span: Span,
    operation_span: Span,
) -> Outcome<OperandView> {
    let is_int = is_primitive(c, result, PrimitiveType::Int);
    let is_float = is_primitive(c, result, PrimitiveType::Float);
    match failure_of(operator, is_int, is_float) {
        None => binary(c, s, result, operator, left, right, operation_span),
        Some(operation) => match fail(c, s, failure_span, operation) {
            Err(fault) => Err(fault),
            Ok((s, failure)) => match checked(s, operator, is_int, left, right, failure, failure_span) {
                Err(fault) => Err(fault),
                Ok((s, _)) => match binary(c, s, result, operator, left, right, operation_span) {
                    Err(fault) => Err(fault),
                    Ok((s, operand)) => if is_float && must_be_finite(operator) {
                        match emit(s, OperationView::Check(CheckView::FiniteFloat { operand, failure }), failure_span) {
                            Err(fault) => Err(fault),
                            Ok((s, _)) => Ok((s, operand)),
                        }
                    } else {
                        Ok((s, operand))
                    },
                },
            },
        },
    }
}

/// A binary operation into a new local.
pub open spec fn binary(
    c: Context,
    s: State,
    result: SourceType,
    operator: BinaryOperator,
    left: OperandView,
    right: OperandView,
    span: Span,
) -> Outcome<OperandView> {
    match temporary(c, s, result) {
        Err(fault) => Err(fault),
        Ok((s, destination)) => match emit(s, OperationView::Binary { destination, operator, left, right }, span) {
            Err(fault) => Err(fault),
            Ok((s, _)) => Ok((s, value_of(destination))),
        },
    }
}

/// The alternatives of a union type of the analysis.
#[verifier::opaque]
pub open spec fn alternatives_of(
    c: Context,
    union: SourceType,
    nominal_fault: &'static str,
    type_fault: &'static str,
) -> Result<Seq<UnionAlternative>, &'static str> {
    if !c.analysis.types.has(union) {
        Err(type_fault)
    } else {
        match c.analysis.types.entries@[union.0 as int] {
            ResolvedType::Union(alternatives) => Ok(alternatives@),
            ResolvedType::Nominal(declaration) => if declaration.0 < c.analysis.type_definitions@.len() {
                match c.analysis.type_definitions@[declaration.0 as int].kind {
                    TypeDefinitionKind::Union { alternatives, .. } => Ok(alternatives@),
                    _ => Err(nominal_fault),
                }
            } else {
                Err(nominal_fault)
            },
            _ => Err(type_fault),
        }
    }
}

/// The identity of an alternative: its position in the union.
#[verifier::opaque]
pub open spec fn alternative_id(c: Context, union: SourceType, alternative: AlternativeView) -> Result<
    AlternativeId,
    &'static str,
> {
    match alternatives_of(
        c,
        union,
        "union operation names a non-union nominal",
        "union operation names a non-union type",
    ) {
        Err(fault) => Err(fault),
        Ok(alternatives) => match first_index(analysis::alternative_views(alternatives), alternative) {
            Some(index) => Ok(AlternativeId(index as usize)),
            None => Err("union alternative is absent"),
        },
    }
}

/// A value put into a union.
#[verifier::opaque]
pub open spec fn inject(
    c: Context,
    s: State,
    payload: OperandView,
    union: SourceType,
    alternative: AlternativeView,
    span: Span,
) -> Outcome<OperandView> {
    match temporary(c, s, union) {
        Err(fault) => Err(fault),
        Ok((s, destination)) => match alternative_id(c, union, alternative) {
            Err(fault) => Err(fault),
            Ok(alternative) => match mapped(c, union) {
                Err(fault) => Err(fault),
                Ok(union_type) => match emit(
                    s,
                    OperationView::UnionInject { destination, union_type, alternative, payload },
                    span,
                ) {
                    Err(fault) => Err(fault),
                    Ok((s, _)) => Ok((s, value_of(destination))),
                },
            },
        },
    }
}

/// The value of an expression, put into a union where the analysis says so.
#[verifier::opaque]
pub open spec fn injected(c: Context, s: State, expression: Span, value: Option<OperandView>) -> Outcome<
    Option<OperandView>,
> {
    match value {
        None => Ok((s, None)),
        Some(value) => match injection_of(c.analysis, expression) {
            None => Ok((s, Some(value))),
            Some((union, alternative)) => match inject(c, s, value, union, alternative, expression) {
                Err(fault) => Err(fault),
                Ok((s, value)) => Ok((s, Some(value))),
            },
        },
    }
}

/// The latest of the first `count` narrowings of a binding to a payload.
pub open spec fn narrowed_before(
    narrowings: Seq<Narrowing>,
    binding: BindingId,
    payload: Option<SourceType>,
    count: int,
) -> Option<LocalId>
    decreases count,
{
    if count <= 0 {
        None
    } else if narrowings[count - 1].binding == binding && (payload matches Some(payload) ==> narrowings[count
        - 1].payload == payload) {
        Some(narrowings[count - 1].local)
    } else {
        narrowed_before(narrowings, binding, payload, count - 1)
    }
}

/// The local that a binding has been given.
pub open spec fn bound(s: State, binding: BindingId) -> Option<LocalId> {
    if binding.0 < s.bindings.len() {
        s.bindings[binding.0 as int]
    } else {
        None
    }
}

/// The local that stands for a binding: one with the payload that it is narrowed to, or its own.
#[verifier::opaque]
pub open spec fn local_of(s: State, binding: BindingId, payload: Option<SourceType>) -> Option<LocalId> {
    match narrowed_before(s.narrowings, binding, payload, s.narrowings.len() as int) {
        Some(local) => Some(local),
        None => bound(s, binding),
    }
}

/// The first `count` narrowings without those of a binding.
pub open spec fn without(narrowings: Seq<Narrowing>, binding: BindingId, count: int) -> Seq<Narrowing>
    decreases count,
{
    if count <= 0 {
        seq![]
    } else if narrowings[count - 1].binding == binding {
        without(narrowings, binding, count - 1)
    } else {
        without(narrowings, binding, count - 1).push(narrowings[count - 1])
    }
}

/// A binding narrowed to nothing.
#[verifier::opaque]
pub open spec fn widened(s: State, binding: BindingId) -> State {
    State { narrowings: without(s.narrowings, binding, s.narrowings.len() as int), ..s }
}

/// A binding narrowed to a payload that a local holds.
#[verifier::opaque]
pub open spec fn narrowed(s: State, narrowing: Narrowing) -> State {
    let s = widened(s, narrowing.binding);
    State { narrowings: s.narrowings.push(narrowing), ..s }
}

/// The narrowings of an earlier state.
pub open spec fn restored(s: State, narrowings: Seq<Narrowing>) -> State {
    State { narrowings, ..s }
}

/// A binding with a local of its own.
#[verifier::opaque]
pub open spec fn bind(s: State, binding: BindingId, local: LocalId) -> State {
    if binding.0 < s.bindings.len() {
        State { bindings: s.bindings.update(binding.0 as int, Some(local)), ..s }
    } else {
        s
    }
}

/// What is known of the type of a binding.
pub open spec fn binding_state(c: Context, binding: BindingId) -> TypeState {
    if binding.0 < c.analysis.binding_types@.len() {
        c.analysis.binding_types@[binding.0 as int].state
    } else {
        TypeState::Error
    }
}

/// The latest of the first `count` lowered tests of an expression.
pub open spec fn test_before(tests: Seq<TestView>, expression: Span, count: int) -> Option<int>
    decreases count,
{
    if count <= 0 {
        None
    } else if tests[count - 1].expression == expression {
        Some(count - 1)
    } else {
        test_before(tests, expression, count - 1)
    }
}

/// The narrowing that a condition that holds brings about.
#[verifier::opaque]
pub open spec fn activated(c: Context, s: State, condition: Span, span: Span) -> Outcome<()> {
    match test_before(s.tests, condition, s.tests.len() as int) {
        None => Ok((s, ())),
        Some(i) => {
            let test = s.tests[i];
            match test.binding {
                None => Ok((s, ())),
                Some(binding) => match temporary(c, s, test.payload) {
                    Err(fault) => Err(fault),
                    Ok((s, local)) => match emit(
                        s,
                        OperationView::UnionPayload {
                            destination: local,
                            union: test.union,
                            alternative: test.alternative,
                        },
                        span,
                    ) {
                        Err(fault) => Err(fault),
                        Ok((s, _)) => Ok((narrowed(s, Narrowing { binding, payload: test.payload, local }), ())),
                    },
                },
            }
        },
    }
}

/// Paths that go on in a block.
pub open spec fn joined(s: State, paths: Seq<(BlockId, Span)>, merge: BlockId, from: int) -> State
    decreases paths.len() - from,
{
    if from < 0 || from >= paths.len() {
        s
    } else {
        joined(seal(s, paths[from].0, TerminatorView::Jump(merge), paths[from].1), paths, merge, from + 1)
    }
}

/// Paths that meet in a new block, if there are any.
#[verifier::opaque]
pub open spec fn merged(s: State, paths: Seq<(BlockId, Span)>) -> (State, bool) {
    if paths.len() == 0 {
        (left(s), false)
    } else {
        let (s, merge) = open_block(s);
        (entered(joined(s, paths, merge, 0), merge), true)
    }
}

/// The path that ends here, if one does.
pub open spec fn with_path(paths: Seq<(BlockId, Span)>, s: State, span: Span) -> Seq<(BlockId, Span)> {
    match s.block {
        Some(block) => paths.push((block, span)),
        None => paths,
    }
}

/// A number of new blocks.
pub open spec fn open_blocks(s: State, count: int) -> (State, Seq<BlockId>)
    decreases count,
{
    if count <= 0 {
        (s, seq![])
    } else {
        let (s, blocks) = open_blocks(s, count - 1);
        let (s, block) = open_block(s);
        (s, blocks.push(block))
    }
}

/// The iterations of the first `count` loops that are ended, innermost first.
pub open spec fn cleaned(s: State, loops: Seq<LoopView>, count: int, span: Span) -> Outcome<()>
    decreases count,
{
    if count <= 0 {
        Ok((s, ()))
    } else {
        match loops[count - 1].cleanup {
            None => cleaned(s, loops, count - 1, span),
            Some(iterable) => match emit(s, OperationView::EndIteration { iterable }, span) {
                Err(fault) => Err(fault),
                Ok((s, _)) => cleaned(s, loops, count - 1, span),
            },
        }
    }
}

/// The identity of a definition.
pub open spec fn definition_id(c: Context, declaration: TypeDeclarationId) -> Result<DefinitionId, &'static str> {
    if declaration.0 < c.analysis.type_definitions@.len() {
        Ok(DefinitionId(declaration.0))
    } else {
        Err("nominal definition has no IR mapping")
    }
}

/// How many fields a definition has.
pub open spec fn field_count(kind: TypeDefinitionKind) -> nat {
    match kind {
        TypeDefinitionKind::Struct(members) => members@.len(),
        TypeDefinitionKind::Tuple(members) => members@.len(),
        _ => 0,
    }
}

/// The identity of a field.
pub open spec fn field_id(c: Context, declaration: TypeDeclarationId, field: usize) -> Result<FieldId, &'static str> {
    if declaration.0 < c.analysis.type_definitions@.len() && field < field_count(
        c.analysis.type_definitions@[declaration.0 as int].kind,
    ) {
        Ok(FieldId(field))
    } else {
        Err("nominal field has no IR mapping")
    }
}

pub open spec fn storage_of(storage: MemberStorage) -> ir::MemberStorage {
    match storage {
        MemberStorage::Inline => ir::MemberStorage::Inline,
        MemberStorage::Referenced => ir::MemberStorage::Referenced,
    }
}

/// The projection of a struct field.
#[verifier::opaque]
pub open spec fn struct_projection(
    c: Context,
    declaration: TypeDeclarationId,
    field: usize,
    storage: MemberStorage,
) -> Result<Projection, &'static str> {
    match definition_id(c, declaration) {
        Err(fault) => Err(fault),
        Ok(definition) => match field_id(c, declaration, field) {
            Err(fault) => Err(fault),
            Ok(field) => Ok(Projection::StructField { definition, field, storage: storage_of(storage) }),
        },
    }
}

/// The projection of a tuple field.
#[verifier::opaque]
pub open spec fn tuple_projection(c: Context, declaration: TypeDeclarationId, position: usize) -> Result<
    Projection,
    &'static str,
> {
    match definition_id(c, declaration) {
        Err(fault) => Err(fault),
        Ok(definition) => match field_id(c, declaration, position) {
            Err(fault) => Err(fault),
            Ok(field) => Ok(Projection::TupleField { definition, field }),
        },
    }
}

/// The place behind one more projection.
pub open spec fn behind(place: PlaceView, projection: Projection) -> PlaceView {
    PlaceView { local: place.local, projections: place.projections.push(projection) }
}

/// The member of a value.
#[verifier::opaque]
pub open spec fn member_place(
    c: Context,
    receiver: OperandView,
    expression: Span,
) -> Result<OperandView, &'static str> {
    match receiver {
        OperandView::Constant { .. } => Err("member receiver did not materialize to a place"),
        OperandView::Copy(place) => match latest(c.analysis.projections@, expression) {
            None => Err("member projection fact is missing"),
            Some(i) => match c.analysis.projections@[i].kind {
                ProjectionKind::Struct { declaration, field, storage, .. } => match struct_projection(
                    c,
                    declaration,
                    field,
                    storage,
                ) {
                    Err(fault) => Err(fault),
                    Ok(projection) => Ok(OperandView::Copy(behind(place, projection))),
                },
                ProjectionKind::Tuple { declaration, position, .. } => match tuple_projection(
                    c,
                    declaration,
                    position,
                ) {
                    Err(fault) => Err(fault),
                    Ok(projection) => Ok(OperandView::Copy(behind(place, projection))),
                },
                _ => Err("member expression has a non-member projection"),
            },
        },
    }
}

/// The element of a list, a map or a string.
#[verifier::opaque]
pub open spec fn indexed(
    c: Context,
    s: State,
    receiver: OperandView,
    index: OperandView,
    expression: Span,
    index_span: Span,
) -> Outcome<OperandView> {
    match latest(c.analysis.projections@, expression) {
        None => Err("index projection fact is missing"),
        Some(i) => match c.analysis.projections@[i].kind {
            ProjectionKind::String { .. } => match raw_type(c, expression) {
                Err(fault) => Err(fault),
                Ok(ty) => match temporary(c, s, ty) {
                    Err(fault) => Err(fault),
                    Ok((s, destination)) => match fail(c, s, index_span, FailureOperation::StringIndex) {
                        Err(fault) => Err(fault),
                        Ok((s, failure)) => match emit(
                            s,
                            OperationView::StringIndex { destination, string: receiver, index, failure },
                            expression,
                        ) {
                            Err(fault) => Err(fault),
                            Ok((s, _)) => Ok((s, value_of(destination))),
                        },
                    },
                },
            },
            kind => match (receiver, index) {
                (OperandView::Constant { .. }, _) => Err("index receiver did not materialize to a place"),
                (_, OperandView::Constant { .. }) => Err("dynamic index did not materialize to a local"),
                (OperandView::Copy(place), OperandView::Copy(at)) => if at.projections.len() != 0 {
                    Err("dynamic index retained projections")
                } else {
                    match kind {
                        ProjectionKind::List { .. } => match fail(c, s, index_span, FailureOperation::ListIndex) {
                            Err(fault) => Err(fault),
                            Ok((s, failure)) => Ok(
                                (
                                    s,
                                    OperandView::Copy(
                                        behind(place, Projection::ListIndex { index: at.local, failure }),
                                    ),
                                ),
                            ),
                        },
                        ProjectionKind::Mapping { .. } => match fail(c, s, index_span, FailureOperation::MapIndex) {
                            Err(fault) => Err(fault),
                            Ok((s, failure)) => Ok(
                                (
                                    s,
                                    OperandView::Copy(behind(place, Projection::MapIndex { key: at.local, failure })),
                                ),
                            ),
                        },
                        _ => Err("index expression has a non-index projection"),
                    }
                },
            },
        },
    }
}

/// The operation that a primitive conversion is.
#[verifier::opaque]
pub open spec fn conversion_of(c: Context, expression: Span) -> Result<(NumericConversion, SourceType), &'static str> {
    match latest(c.analysis.numeric_conversions@, expression) {
        None => Err("numeric conversion fact is missing"),
        Some(i) => {
            let fact = c.analysis.numeric_conversions@[i];
            if !c.analysis.types.has(fact.source) || !c.analysis.types.has(fact.destination) {
                Err("numeric conversion contains an invalid type identity")
            } else if is_primitive(c, fact.source, PrimitiveType::Int) {
                Ok((NumericConversion::IntToFloat, fact.destination))
            } else {
                Ok((NumericConversion::FloatToInt, fact.destination))
            }
        },
    }
}

/// A converted value.
#[verifier::opaque]
pub open spec fn converted(
    c: Context,
    s: State,
    operand: OperandView,
    conversion: NumericConversion,
    destination: SourceType,
    span: Span,
) -> Outcome<OperandView> {
    let prepared = if conversion == NumericConversion::FloatToInt {
        match stabilized(c, s, operand, span) {
            Err(fault) => Err(fault),
            Ok((s, operand)) => match fail(c, s, span, FailureOperation::FloatToInt) {
                Err(fault) => Err(fault),
                Ok((s, failure)) => match emit(
                    s,
                    OperationView::Check(CheckView::NumericConversion { operand, conversion, failure }),
                    span,
                ) {
                    Err(fault) => Err(fault),
                    Ok((s, _)) => Ok((s, operand)),
                },
            },
        }
    } else {
        Ok((s, operand))
    };
    match prepared {
        Err(fault) => Err(fault),
        Ok((s, operand)) => match temporary(c, s, destination) {
            Err(fault) => Err(fault),
            Ok((s, local)) => match emit(
                s,
                OperationView::Convert { destination: local, conversion, operand },
                span,
            ) {
                Err(fault) => Err(fault),
                Ok((s, _)) => Ok((s, value_of(local))),
            },
        },
    }
}

pub open spec fn unary_of(operator: SourceUnary) -> UnaryOperator {
    match operator {
        SourceUnary::LogicalNot => UnaryOperator::LogicalNot,
        SourceUnary::BitwiseNot => UnaryOperator::BitwiseNot,
        SourceUnary::Plus => UnaryOperator::Plus,
        SourceUnary::Minus => UnaryOperator::Minus,
    }
}

/// A unary operation; the negation of an integer is checked first.
#[verifier::opaque]
pub open spec fn negated(
    c: Context,
    s: State,
    operand: OperandView,
    operator: SourceUnary,
    operand_span: Span,
    operator_span: Span,
    expression: Span,
) -> Outcome<OperandView> {
    match raw_type(c, expression) {
        Err(fault) => Err(fault),
        Ok(ty) => {
            let prepared = if operator == SourceUnary::Minus && is_primitive(c, ty, PrimitiveType::Int) {
                match stabilized(c, s, operand, operand_span) {
                    Err(fault) => Err(fault),
                    Ok((s, operand)) => match fail(c, s, operator_span, FailureOperation::IntegerNegation) {
                        Err(fault) => Err(fault),
                        Ok((s, failure)) => match emit(
                            s,
                            OperationView::Check(CheckView::IntegerNegation { operand, failure }),
                            operator_span,
                        ) {
                            Err(fault) => Err(fault),
                            Ok((s, _)) => Ok((s, operand)),
                        },
                    },
                }
            } else {
                Ok((s, operand))
            };
            match prepared {
                Err(fault) => Err(fault),
                Ok((s, operand)) => match temporary(c, s, ty) {
                    Err(fault) => Err(fault),
                    Ok((s, destination)) => match emit(
                        s,
                        OperationView::Unary { destination, operator: unary_of(operator), operand },
                        expression,
                    ) {
                        Err(fault) => Err(fault),
                        Ok((s, _)) => Ok((s, value_of(destination))),
                    },
                },
            }
        },
    }
}

pub open spec fn binary_of(operator: SourceOperator) -> Result<BinaryOperator, &'static str> {
    match operator {
        SourceOperator::LogicalOr => Err("short-circuit operator reached ordinary binary lowering"),
        SourceOperator::LogicalAnd => Err("short-circuit operator reached ordinary binary lowering"),
        SourceOperator::BitwiseOr => Ok(BinaryOperator::BitwiseOr),
        SourceOperator::BitwiseXor => Ok(BinaryOperator::BitwiseXor),
        SourceOperator::BitwiseAnd => Ok(BinaryOperator::BitwiseAnd),
        SourceOperator::Equal => Ok(BinaryOperator::Equal),
        SourceOperator::NotEqual => Ok(BinaryOperator::NotEqual),
        SourceOperator::Less => Ok(BinaryOperator::Less),
        SourceOperator::LessEqual => Ok(BinaryOperator::LessEqual),
        SourceOperator::Greater => Ok(BinaryOperator::Greater),
        SourceOperator::GreaterEqual => Ok(BinaryOperator::GreaterEqual),
        SourceOperator::In => Ok(BinaryOperator::In),
        SourceOperator::ShiftLeft => Ok(BinaryOperator::ShiftLeft),
        SourceOperator::ShiftRight => Ok(BinaryOperator::ShiftRight),
        SourceOperator::Add => Ok(BinaryOperator::Add),
        SourceOperator::Subtract => Ok(BinaryOperator::Subtract),
        SourceOperator::Multiply => Ok(BinaryOperator::Multiply),
        SourceOperator::Divide => Ok(BinaryOperator::Divide),
        SourceOperator::Remainder => Ok(BinaryOperator::Remainder),
    }
}

pub open spec fn compound_of(operator: AssignmentOperator) -> Result<BinaryOperator, &'static str> {
    match operator {
        AssignmentOperator::Assign => Err("simple assignment reached compound lowering"),
        AssignmentOperator::Add => Ok(BinaryOperator::Add),
        AssignmentOperator::Subtract => Ok(BinaryOperator::Subtract),
        AssignmentOperator::Multiply => Ok(BinaryOperator::Multiply),
        AssignmentOperator::Divide => Ok(BinaryOperator::Divide),
        AssignmentOperator::Remainder => Ok(BinaryOperator::Remainder),
        AssignmentOperator::BitwiseAnd => Ok(BinaryOperator::BitwiseAnd),
        AssignmentOperator::BitwiseOr => Ok(BinaryOperator::BitwiseOr),
        AssignmentOperator::BitwiseXor => Ok(BinaryOperator::BitwiseXor),
        AssignmentOperator::ShiftLeft => Ok(BinaryOperator::ShiftLeft),
        AssignmentOperator::ShiftRight => Ok(BinaryOperator::ShiftRight),
    }
}

pub open spec fn method_of(method: analysis::BuiltinMethod) -> BuiltinMethod {
    match method {
        analysis::BuiltinMethod::ListAppend => BuiltinMethod::ListAppend,
        analysis::BuiltinMethod::ListRemoveIndex => BuiltinMethod::ListRemoveIndex,
        analysis::BuiltinMethod::ListLen => BuiltinMethod::ListLen,
        analysis::BuiltinMethod::MapRemoveKey => BuiltinMethod::MapRemoveKey,
        analysis::BuiltinMethod::MapLen => BuiltinMethod::MapLen,
        analysis::BuiltinMethod::StrLen => BuiltinMethod::StrLen,
    }
}

/// How a method of a collection can fail.
pub open spec fn method_failure(method: analysis::BuiltinMethod) -> Option<FailureOperation> {
    match method {
        analysis::BuiltinMethod::ListAppend => Some(FailureOperation::ListAppend),
        analysis::BuiltinMethod::ListRemoveIndex => Some(FailureOperation::ListRemoveIndex),
        analysis::BuiltinMethod::MapRemoveKey => Some(FailureOperation::MapRemoveKey),
        _ => None,
    }
}

/// A call whose receiver and arguments have been lowered.
#[verifier::opaque]
pub open spec fn called(
    c: Context,
    s: State,
    expression: Span,
    target: CallTarget,
    receiver: Option<OperandView>,
    arguments: Seq<OperandView>,
) -> Outcome<OperandView> {
    match raw_type(c, expression) {
        Err(fault) => Err(fault),
        Ok(ty) => match temporary(c, s, ty) {
            Err(fault) => Err(fault),
            Ok((s, destination)) => {
                let done = match target {
                    CallTarget::Callable(CallableId::Function(function)) => if function.0
                        < c.analysis.function_signatures@.len() {
                        emit(
                            s,
                            OperationView::Call { destination, function: FunctionId(function.0), arguments },
                            expression,
                        )
                    } else {
                        Err("callee has no IR mapping")
                    },
                    CallTarget::Callable(CallableId::Intrinsic(IntrinsicId::Print)) => printed(
                        c,
                        s,
                        expression,
                        destination,
                        Intrinsic::Print,
                        arguments,
                    ),
                    CallTarget::Callable(CallableId::Intrinsic(IntrinsicId::Println)) => printed(
                        c,
                        s,
                        expression,
                        destination,
                        Intrinsic::Println,
                        arguments,
                    ),
                    CallTarget::Builtin(method) => match receiver {
                        Some(receiver) => invoked(c, s, expression, destination, method, receiver, arguments),
                        None => Err("call retained an unsupported target"),
                    },
                    _ => Err("call retained an unsupported target"),
                };
                match done {
                    Err(fault) => Err(fault),
                    Ok((s, _)) => Ok((s, value_of(destination))),
                }
            },
        },
    }
}

/// A call of an intrinsic that writes.
pub open spec fn printed(
    c: Context,
    s: State,
    expression: Span,
    destination: LocalId,
    intrinsic: Intrinsic,
    arguments: Seq<OperandView>,
) -> Outcome<()> {
    match fail(c, s, expression, FailureOperation::Output) {
        Err(fault) => Err(fault),
        Ok((s, failure)) => emit(
            s,
            OperationView::Intrinsic { destination, intrinsic, arguments, failure },
            expression,
        ),
    }
}

/// A call of a method; one that changes a collection is checked for a running iteration first.
pub open spec fn invoked(
    c: Context,
    s: State,
    expression: Span,
    destination: LocalId,
    method: analysis::BuiltinMethod,
    receiver: OperandView,
    arguments: Seq<OperandView>,
) -> Outcome<()> {
    match method_failure(method) {
        None => emit(
            s,
            OperationView::Builtin { destination, method: method_of(method), receiver, arguments, failure: None },
            expression,
        ),
        Some(operation) => match fail(c, s, expression, operation) {
            Err(fault) => Err(fault),
            Ok((s, failure)) => match emit(
                s,
                OperationView::Check(CheckView::IterationUnlocked { receiver, failure }),
                expression,
            ) {
                Err(fault) => Err(fault),
                Ok((s, _)) => emit(
                    s,
                    OperationView::Builtin {
                        destination,
                        method: method_of(method),
                        receiver,
                        arguments,
                        failure: Some(failure),
                    },
                    expression,
                ),
            },
        },
    }
}

/// A field put where it belongs among fields in order, after those of the same identity.
pub open spec fn placed(fields: Seq<(FieldId, OperandView)>, field: (FieldId, OperandView)) -> Seq<
    (FieldId, OperandView),
>
    decreases fields.len(),
{
    if fields.len() == 0 || fields.last().0.0 <= field.0.0 {
        fields.push(field)
    } else {
        placed(fields.drop_last(), field).push(fields.last())
    }
}

/// The fields that the arguments of a struct constructor fill, in the order of the fields.
pub open spec fn filled(members: Seq<usize>, values: Seq<OperandView>, count: int) -> Seq<(FieldId, OperandView)>
    decreases count,
{
    if count <= 0 {
        seq![]
    } else {
        placed(filled(members, values, count - 1), (FieldId(members[count - 1]), values[count - 1]))
    }
}

/// The type that a declaration introduces.
pub open spec fn nominal_from(
    entries: Seq<ResolvedType>,
    declaration: TypeDeclarationId,
    from: int,
) -> Option<SourceType>
    decreases entries.len() - from,
{
    if from < 0 || from >= entries.len() {
        None
    } else if entries[from] == ResolvedType::Nominal(declaration) {
        Some(SourceType(from as usize))
    } else {
        nominal_from(entries, declaration, from + 1)
    }
}

/// A value that a constructor makes of its lowered arguments.
#[verifier::opaque]
pub open spec fn constructed(
    c: Context,
    s: State,
    expression: Span,
    kind: ConstructorKind,
    values: Seq<OperandView>,
) -> Outcome<
    OperandView,
> {
    match kind {
        ConstructorKind::Struct { declaration, argument_members } => if values.len() != argument_members@.len() {
            Err("struct argument mapping has the wrong length")
        } else if declaration.0 >= c.analysis.type_definitions@.len() {
            Err("struct definition has no field map")
        } else if exists|i: int|
            0 <= i < argument_members@.len() && #[trigger] argument_members@[i] >= field_count(
                c.analysis.type_definitions@[declaration.0 as int].kind,
            ) {
            Err("struct argument maps to an invalid field")
        } else {
            aggregate(
                c,
                s,
                expression,
                AggregateView::Struct {
                    definition: DefinitionId(declaration.0),
                    fields: filled(argument_members@, values, values.len() as int),
                },
            )
        },
        ConstructorKind::Tuple(declaration) => match definition_id(c, declaration) {
            Err(fault) => Err(fault),
            Ok(definition) => aggregate(
                c,
                s,
                expression,
                AggregateView::Tuple { definition, elements: values },
            ),
        },
        ConstructorKind::Union { declaration, alternative } => joined_union(
            c,
            s,
            expression,
            declaration,
            alternative@,
            values,
        ),
        ConstructorKind::TaggedUnion { declaration, alternative } => joined_union(
            c,
            s,
            expression,
            declaration,
            alternative@,
            values,
        ),
        ConstructorKind::Error { union_type, alternative } => if values.len() != 1 {
            Err("Error constructor does not have one payload")
        } else {
            inject(c, s, values[0], union_type, alternative@, expression)
        },
    }
}

/// A payload put into a declared union.
pub open spec fn joined_union(
    c: Context,
    s: State,
    expression: Span,
    declaration: TypeDeclarationId,
    alternative: AlternativeView,
    values: Seq<OperandView>,
) -> Outcome<OperandView> {
    if values.len() != 1 {
        Err("union constructor does not have one payload")
    } else {
        match nominal_from(c.analysis.types.entries@, declaration, 0) {
            None => Err("union constructor declaration has no canonical nominal type"),
            Some(union) => inject(c, s, values[0], union, alternative, expression),
        }
    }
}

/// The blocks that the alternatives of a union go to, from one alternative on.
pub open spec fn targets_from(
    c: Context,
    switch: SwitchResolution,
    alternatives: Seq<UnionAlternative>,
    blocks: Seq<BlockId>,
    other: Option<BlockId>,
    from: int,
    targets: Seq<(AlternativeId, BlockId)>,
) -> Result<Seq<(AlternativeId, BlockId)>, &'static str>
    decreases alternatives.len() - from,
{
    if from < 0 || from >= alternatives.len() {
        Ok(targets)
    } else {
        match alternative_id(c, switch.operand_union, alternatives[from]@) {
            Err(fault) => Err(fault),
            Ok(id) => match arm_block(switch, alternatives[from]@, blocks, other) {
                None => Err("exhaustive switch has no target for an alternative"),
                Some(block) => targets_from(
                    c,
                    switch,
                    alternatives,
                    blocks,
                    other,
                    from + 1,
                    targets.push((id, block)),
                ),
            },
        }
    }
}

/// The first arm from one on that takes an alternative.
pub open spec fn arm_from(switch: SwitchResolution, alternative: AlternativeView, from: int) -> Option<int>
    decreases switch.arms@.len() - from,
{
    if from < 0 || from >= switch.arms@.len() {
        None
    } else if switch.arms@[from].alternative@ == alternative {
        Some(from)
    } else {
        arm_from(switch, alternative, from + 1)
    }
}

/// Where an alternative goes: to the arm that takes it, or else to the rest.
pub open spec fn arm_block(
    switch: SwitchResolution,
    alternative: AlternativeView,
    blocks: Seq<BlockId>,
    other: Option<BlockId>,
) -> Option<BlockId> {
    match arm_from(switch, alternative, 0) {
        Some(index) => if index < blocks.len() {
            Some(blocks[index])
        } else {
            other
        },
        None => other,
    }
}

/// The narrowing in an arm of a `switch`.
#[verifier::opaque]
pub open spec fn arm_narrowed(
    c: Context,
    s: State,
    switch: SwitchResolution,
    union: OperandView,
    index: int,
    span: Span,
) -> Outcome<()> {
    match switch.binding {
        None => Ok((s, ())),
        Some(binding) => match alternative_id(c, switch.operand_union, switch.arms@[index].alternative@) {
            Err(fault) => Err(fault),
            Ok(alternative) => match temporary(c, s, switch.arms@[index].payload) {
                Err(fault) => Err(fault),
                Ok((s, local)) => match emit(
                    s,
                    OperationView::UnionPayload { destination: local, union, alternative },
                    span,
                ) {
                    Err(fault) => Err(fault),
                    Ok((s, _)) => Ok(
                        (narrowed(s, Narrowing { binding, payload: switch.arms@[index].payload, local }), ()),
                    ),
                },
            },
        },
    }
}

/// The blocks that the alternatives of a postfix `?` go to, from one on.
pub open spec fn exits_from(
    c: Context,
    union: SourceType,
    alternatives: Seq<UnionAlternative>,
    blocks: Seq<BlockId>,
    from: int,
    targets: Seq<(AlternativeId, BlockId)>,
) -> Result<Seq<(AlternativeId, BlockId)>, &'static str>
    decreases alternatives.len() - from,
{
    if from < 0 || from >= alternatives.len() {
        Ok(targets)
    } else {
        match alternative_id(c, union, alternatives[from]@) {
            Err(fault) => Err(fault),
            Ok(id) => exits_from(c, union, alternatives, blocks, from + 1, targets.push((id, blocks[from]))),
        }
    }
}

/// How many of the first `count` alternatives are not errors.
pub open spec fn successes_count(alternatives: Seq<UnionAlternative>, count: int) -> nat
    decreases count,
{
    if count <= 0 {
        0
    } else if alternatives[count - 1] is Error {
        successes_count(alternatives, count - 1)
    } else {
        successes_count(alternatives, count - 1) + 1
    }
}

/// What the error of a postfix `?` does: it leaves the function, or the program.
#[verifier::opaque]
pub open spec fn errored(
    c: Context,
    s: State,
    r: TryResolution,
    alternative: AlternativeView,
    payload: OperandView,
) -> Outcome<
    (),
> {
    if alternative != r.source_error@ {
        Err("postfix try selects a contradictory Error alternative")
    } else {
        match r.action {
            TryAction::Propagate { function, destination_union, destination_error } => if function != c.function
                || payload_of(destination_error@) != payload_of(alternative) {
                Err("postfix try propagation action is contradictory")
            } else {
                match inject(c, s, payload, destination_union, destination_error@, r.operator_span) {
                    Err(fault) => Err(fault),
                    Ok((s, returned)) => match cleaned(s, s.loops, s.loops.len() as int, r.operator_span) {
                        Err(fault) => Err(fault),
                        Ok((s, _)) => finish(s, TerminatorView::Return(returned), r.operator_span),
                    },
                }
            },
            TryAction::Panic { function } => if function != c.function {
                Err("postfix try panic action names the wrong function")
            } else {
                match fail(c, s, r.operator_span, FailureOperation::UnhandledError) {
                    Err(fault) => Err(fault),
                    Ok((s, failure)) => finish(s, TerminatorView::ErrorPanic { payload, failure }, r.operator_span),
                }
            },
        }
    }
}

/// The type of the value of a postfix `?`.
pub open spec fn try_type(r: TryResolution) -> SourceType {
    match r.widening {
        Some(ty) => ty,
        None => r.success,
    }
}

/// What a success of a postfix `?` does: its payload becomes the value.
#[verifier::opaque]
pub open spec fn succeeded(
    c: Context,
    s: State,
    r: TryResolution,
    alternative: AlternativeView,
    payload: OperandView,
    result: LocalId,
    single: bool,
) -> Outcome<()> {
    let value = if single && r.widening is None {
        if payload_of(alternative) != r.success {
            Err("single-success try has the wrong result type")
        } else {
            Ok((s, payload))
        }
    } else {
        inject(c, s, payload, try_type(r), alternative, r.operator_span)
    };
    match value {
        Err(fault) => Err(fault),
        Ok((s, value)) => emit(s, OperationView::Assign { destination: whole(result), value }, r.operator_span),
    }
}

/// The alternatives of a postfix `?` from one on; the paths are those that go on with a value.
pub open spec fn attempted_from(
    c: Context,
    s: State,
    r: TryResolution,
    alternatives: Seq<UnionAlternative>,
    operand: OperandView,
    result: LocalId,
    single: bool,
    blocks: Seq<BlockId>,
    from: int,
    paths: Seq<(BlockId, Span)>,
) -> Outcome<Seq<(BlockId, Span)>>
    decreases alternatives.len() - from,
{
    if from < 0 || from >= alternatives.len() {
        Ok((s, paths))
    } else {
        let alternative = alternatives[from]@;
        match alternative_id(c, r.operand_union, alternative) {
            Err(fault) => Err(fault),
            Ok(id) => match temporary(c, entered(s, blocks[from]), payload_of(alternative)) {
                Err(fault) => Err(fault),
                Ok((s, local)) => match emit(
                    s,
                    OperationView::UnionPayload { destination: local, union: operand, alternative: id },
                    r.operator_span,
                ) {
                    Err(fault) => Err(fault),
                    Ok((s, _)) => if alternatives[from] is Error {
                        match errored(c, s, r, alternative, value_of(local)) {
                            Err(fault) => Err(fault),
                            Ok((s, _)) => attempted_from(
                                c,
                                s,
                                r,
                                alternatives,
                                operand,
                                result,
                                single,
                                blocks,
                                from + 1,
                                paths,
                            ),
                        }
                    } else {
                        match succeeded(c, s, r, alternative, value_of(local), result, single) {
                            Err(fault) => Err(fault),
                            Ok((s, _)) => attempted_from(
                                c,
                                left(s),
                                r,
                                alternatives,
                                operand,
                                result,
                                single,
                                blocks,
                                from + 1,
                                with_path(paths, s, r.operator_span),
                            ),
                        }
                    },
                },
            },
        }
    }
}

/// A postfix `?` whose operand has been lowered.
#[verifier::opaque]
pub open spec fn attempted(c: Context, s: State, expression: Span, value: Span, operand: OperandView) -> Outcome<
    OperandView,
> {
    match only(c.semantic.tries@, expression) {
        None => Err("postfix try does not have exactly one resolution"),
        Some(i) => {
            let r = c.semantic.tries@[i];
            match value_type(c, value) {
                Err(fault) => Err(fault),
                Ok(union) => if r.operand_union != union {
                    Err("postfix try resolution contradicts its operand")
                } else {
                    match alternatives_of(
                        c,
                        r.operand_union,
                        "union identity names a non-union nominal",
                        "union identity names a non-union type",
                    ) {
                        Err(fault) => Err(fault),
                        Ok(alternatives) => match temporary(c, s, try_type(r)) {
                            Err(fault) => Err(fault),
                            Ok((s, result)) => {
                                let (s, blocks) = open_blocks(s, alternatives.len() as int);
                                let single = successes_count(alternatives, alternatives.len() as int) == 1;
                                match exits_from(c, r.operand_union, alternatives, blocks, 0, seq![]) {
                                    Err(fault) => Err(fault),
                                    Ok(targets) => match finish(
                                        s,
                                        TerminatorView::Switch { union: operand, targets },
                                        r.operator_span,
                                    ) {
                                        Err(fault) => Err(fault),
                                        Ok((s, _)) => match attempted_from(
                                            c,
                                            s,
                                            r,
                                            alternatives,
                                            operand,
                                            result,
                                            single,
                                            blocks,
                                            0,
                                            seq![],
                                        ) {
                                            Err(fault) => Err(fault),
                                            Ok((s, paths)) => {
                                                let (s, any) = merged(s, paths);
                                                if any {
                                                    Ok((s, value_of(result)))
                                                } else {
                                                    Err("postfix try has no success path")
                                                }
                                            },
                                        },
                                    },
                                }
                            },
                        },
                    }
                },
            }
        },
    }
}

} // verus!
