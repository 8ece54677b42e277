//! What the statements and expressions of a function body become.

use crate::analysis::{
    AccessPathStep, BindingNode, CallTarget, CallableId, IntrinsicId, NameResolution, ResolvedType, TypeState,
    latest, payload_of, primitive_type, state_of, target_of, unit_type, use_of,
};
use crate::ast::{
    Argument, ArgumentKind, AssignmentOperator, AssignmentTarget, AssignmentTargetSuffix,
    AssignmentTargetSuffixKind, BinaryOperator as SourceOperator, Block, ConditionalExpressionBranch,
    ConditionalStatementBranch, Expression, ExpressionBody, ExpressionBodyKind, ExpressionKind, MapEntry,
    PrimitiveType, Statement, StatementBody, StatementBodyKind, StatementKind, SwitchArm,
    UnaryOperator as SourceUnary,
};
use crate::ir::{
    BinaryOperator, BlockId, BuiltinMethod, ConstantView, FailureOperation, IntegerOperation, LocalOrigin,
    OperandView, PlaceView, Projection,
};
use crate::lowering::model::{
    AggregateView, CheckView, Context, LoopView, Narrowing, OperationView, Outcome, State, TerminatorView,
    TestView, declare, emit, entered, fail, finish, left, mapped, open_block, seal, temporary, value_of, whole,
};
use crate::lowering::rules::{
    activated, aggregate, alternative_id, alternatives_of, arm_narrowed, attempted, behind, binary_of, bind,
    binding_state, called, checked_binary, cleaned, compound_of, constant, constructed, conversion_of,
    converted, flow_of, indexed, inject, injected, is_smallest, literal_constant, local_of, materialized,
    member_place, merged, negated, only, open_blocks, raw_type, restored, source_type, stabilized,
    struct_projection, targets_from, text_at, tuple_projection, value_type, widened, with_path,
};
use crate::semantic::{
    FlowSubject, MutabilityOperation, MutabilityPath, MutabilityResolution, MutabilitySubject, SwitchResolution,
};
use crate::semantic::flow_rules::introduced_from;
use crate::source::Span;
use vstd::prelude::*;

verus! {

/// The expression inside of parentheses.
pub open spec fn stripped(expression: &Expression) -> Span
    decreases expression,
{
    match &expression.kind {
        ExpressionKind::Parenthesized(inner) => stripped(inner),
        _ => expression.span,
    }
}

/// What an expression becomes; its value, if control gets to its end.
pub open spec fn expression_rule(c: Context, s: State, e: &Expression) -> Outcome<Option<OperandView>>
    decreases e, 4int,
{
    match flow_of(c, FlowSubject::Expression(e.span), "expression does not have exactly one flow summary") {
        Err(fault) => Err(fault),
        Ok(expected) => match core_rule(c, s, e) {
            Err(fault) => Err(fault),
            Ok((s, value)) => match injected(c, s, e.span, value) {
                Err(fault) => Err(fault),
                Ok((s, value)) => if expected != (value is Some) || expected != (s.block is Some) {
                    Err("expression lowering contradicts its flow summary")
                } else {
                    Ok((s, value))
                },
            },
        },
    }
}

/// A step that always gives a value.
pub open spec fn always(outcome: Outcome<OperandView>) -> Outcome<Option<OperandView>> {
    match outcome {
        Err(fault) => Err(fault),
        Ok((s, value)) => Ok((s, Some(value))),
    }
}

/// A value that leaves the state alone.
pub open spec fn at_once(s: State, value: Result<OperandView, &'static str>) -> Outcome<Option<OperandView>> {
    match value {
        Err(fault) => Err(fault),
        Ok(value) => Ok((s, Some(value))),
    }
}

/// What an expression becomes before it is put into a union.
pub open spec fn core_rule(c: Context, s: State, e: &Expression) -> Outcome<Option<OperandView>>
    decreases e, 3int,
{
    match &e.kind {
        ExpressionKind::Unit => match raw_type(c, e.span) {
            Err(fault) => Err(fault),
            Ok(ty) => at_once(s, constant(c, ty, ConstantView::Unit)),
        },
        ExpressionKind::Integer => at_once(s, literal_constant(c, e.span)),
        ExpressionKind::Float => at_once(s, literal_constant(c, e.span)),
        ExpressionKind::String(_) => at_once(s, literal_constant(c, e.span)),
        ExpressionKind::Character(_) => at_once(s, literal_constant(c, e.span)),
        ExpressionKind::Boolean(_) => at_once(s, literal_constant(c, e.span)),
        ExpressionKind::Identifier(identifier) => name_rule(c, s, identifier.span, e.span),
        ExpressionKind::Parenthesized(inner) => expression_rule(c, s, inner),
        ExpressionKind::Conversion { operand, .. } => match conversion_of(c, e.span) {
            Err(fault) => Err(fault),
            Ok((conversion, destination)) => match expression_rule(c, s, operand) {
                Err(fault) => Err(fault),
                Ok((s, None)) => Ok((s, None)),
                Ok((s, Some(operand))) => always(converted(c, s, operand, conversion, destination, e.span)),
            },
        },
        ExpressionKind::Unary { operator, operator_span, operand } => if *operator == SourceUnary::Minus
            && is_smallest(c, operand.span) {
            match raw_type(c, e.span) {
                Err(fault) => Err(fault),
                Ok(ty) => at_once(s, constant(c, ty, ConstantView::Integer(i64::MIN))),
            }
        } else {
            match expression_rule(c, s, operand) {
                Err(fault) => Err(fault),
                Ok((s, None)) => Ok((s, None)),
                Ok((s, Some(value))) => always(
                    negated(c, s, value, *operator, operand.span, *operator_span, e.span),
                ),
            }
        },
        ExpressionKind::Binary { left, operator, operator_span, right } => if *operator == SourceOperator::LogicalAnd
            || *operator == SourceOperator::LogicalOr {
            short_circuit_rule(c, s, e)
        } else {
            match operand_rule(c, s, left) {
                Err(fault) => Err(fault),
                Ok((s, None)) => Ok((s, None)),
                Ok((s, Some(first))) => match operand_rule(c, s, right) {
                    Err(fault) => Err(fault),
                    Ok((s, None)) => Ok((s, None)),
                    Ok((s, Some(second))) => match raw_type(c, e.span) {
                        Err(fault) => Err(fault),
                        Ok(ty) => match binary_of(*operator) {
                            Err(fault) => Err(fault),
                            Ok(operator) => always(
                                checked_binary(c, s, ty, operator, first, second, *operator_span, e.span),
                            ),
                        },
                    },
                },
            }
        },
        ExpressionKind::List(elements) => match operands_from(c, s, elements@, 0, seq![]) {
            Err(fault) => Err(fault),
            Ok((s, None)) => Ok((s, None)),
            Ok((s, Some(elements))) => list_rule(c, s, e.span, elements),
        },
        ExpressionKind::Mapping(entries) => match entries_from(c, s, entries@, 0, seq![]) {
            Err(fault) => Err(fault),
            Ok((s, None)) => Ok((s, None)),
            Ok((s, Some(entries))) => mapping_rule(c, s, e.span, entries),
        },
        ExpressionKind::TypedEmptyList(_) => list_rule(c, s, e.span, seq![]),
        ExpressionKind::TypedEmptyMap(_) => mapping_rule(c, s, e.span, seq![]),
        ExpressionKind::Call { .. } => call_rule(c, s, e),
        ExpressionKind::Member { value, .. } => match operand_rule(c, s, value) {
            Err(fault) => Err(fault),
            Ok((s, None)) => Ok((s, None)),
            Ok((s, Some(receiver))) => at_once(s, member_place(c, receiver, e.span)),
        },
        ExpressionKind::Index { value, index } => match operand_rule(c, s, value) {
            Err(fault) => Err(fault),
            Ok((s, None)) => Ok((s, None)),
            Ok((s, Some(receiver))) => match expression_rule(c, s, index) {
                Err(fault) => Err(fault),
                Ok((s, None)) => Ok((s, None)),
                Ok((s, Some(at))) => match materialized(c, s, at, index.span) {
                    Err(fault) => Err(fault),
                    Ok((s, at)) => always(indexed(c, s, receiver, at, e.span, index.span)),
                },
            },
        },
        ExpressionKind::Block(block) => block_value_rule(c, s, block),
        ExpressionKind::If { .. } => if_expression_rule(c, s, e),
        ExpressionKind::Is { value, .. } => test_rule(c, s, value, e.span),
        ExpressionKind::Try { value, .. } => match operand_rule(c, s, value) {
            Err(fault) => Err(fault),
            Ok((s, None)) => Ok((s, None)),
            Ok((s, Some(operand))) => always(attempted(c, s, e.span, value.span, operand)),
        },
    }
}

/// The value of a binding.
pub open spec fn name_rule(c: Context, s: State, identifier: Span, expression: Span) -> Outcome<Option<OperandView>> {
    match use_of(c.analysis, identifier) {
        Some(name) => match name.resolution {
            NameResolution::Binding(binding) => match value_type(c, expression) {
                Err(fault) => Err(fault),
                Ok(ty) => match local_of(s, binding, Some(ty)) {
                    None => Err("binding has not been allocated"),
                    Some(local) => Ok((s, Some(value_of(local)))),
                },
            },
            _ => Err("value identifier is not a binding"),
        },
        None => Err("value identifier is not a binding"),
    }
}

/// An expression whose value nothing later can change.
pub open spec fn operand_rule(c: Context, s: State, e: &Expression) -> Outcome<Option<OperandView>>
    decreases e, 5int,
{
    match expression_rule(c, s, e) {
        Err(fault) => Err(fault),
        Ok((s, None)) => Ok((s, None)),
        Ok((s, Some(value))) => always(stabilized(c, s, value, e.span)),
    }
}

/// Expressions from one on, in order.
pub open spec fn operands_from(
    c: Context,
    s: State,
    expressions: Seq<Expression>,
    from: int,
    values: Seq<OperandView>,
) -> Outcome<Option<Seq<OperandView>>>
    decreases expressions, expressions.len() - from,
{
    if from < 0 || from >= expressions.len() {
        Ok((s, Some(values)))
    } else {
        match operand_rule(c, s, &expressions[from]) {
            Err(fault) => Err(fault),
            Ok((s, None)) => Ok((s, None)),
            Ok((s, Some(value))) => operands_from(c, s, expressions, from + 1, values.push(value)),
        }
    }
}

pub open spec fn argument_rule(c: Context, s: State, argument: &Argument) -> Outcome<Option<OperandView>>
    decreases argument, 0int,
{
    match &argument.kind {
        ArgumentKind::Positional(value) => operand_rule(c, s, value),
        ArgumentKind::Named { value, .. } => operand_rule(c, s, value),
    }
}

/// Arguments from one on, in order.
pub open spec fn arguments_from(
    c: Context,
    s: State,
    arguments: Seq<Argument>,
    from: int,
    values: Seq<OperandView>,
) -> Outcome<Option<Seq<OperandView>>>
    decreases arguments, arguments.len() - from,
{
    if from < 0 || from >= arguments.len() {
        Ok((s, Some(values)))
    } else {
        match argument_rule(c, s, &arguments[from]) {
            Err(fault) => Err(fault),
            Ok((s, None)) => Ok((s, None)),
            Ok((s, Some(value))) => arguments_from(c, s, arguments, from + 1, values.push(value)),
        }
    }
}

pub open spec fn entry_rule(c: Context, s: State, entry: &MapEntry) -> Outcome<Option<(OperandView, OperandView)>>
    decreases entry, 0int,
{
    match operand_rule(c, s, &entry.key) {
        Err(fault) => Err(fault),
        Ok((s, None)) => Ok((s, None)),
        Ok((s, Some(key))) => match operand_rule(c, s, &entry.value) {
            Err(fault) => Err(fault),
            Ok((s, None)) => Ok((s, None)),
            Ok((s, Some(value))) => Ok((s, Some((key, value)))),
        },
    }
}

/// Map entries from one on, in order.
pub open spec fn entries_from(
    c: Context,
    s: State,
    entries: Seq<MapEntry>,
    from: int,
    values: Seq<(OperandView, OperandView)>,
) -> Outcome<Option<Seq<(OperandView, OperandView)>>>
    decreases entries, entries.len() - from,
{
    if from < 0 || from >= entries.len() {
        Ok((s, Some(values)))
    } else {
        match entry_rule(c, s, &entries[from]) {
            Err(fault) => Err(fault),
            Ok((s, None)) => Ok((s, None)),
            Ok((s, Some(value))) => entries_from(c, s, entries, from + 1, values.push(value)),
        }
    }
}

pub open spec fn list_rule(c: Context, s: State, expression: Span, elements: Seq<OperandView>) -> Outcome<
    Option<OperandView>,
> {
    match raw_type(c, expression) {
        Err(fault) => Err(fault),
        Ok(ty) => match mapped(c, ty) {
            Err(fault) => Err(fault),
            Ok(ty) => always(aggregate(c, s, expression, AggregateView::List { ty, elements })),
        },
    }
}

pub open spec fn mapping_rule(
    c: Context,
    s: State,
    expression: Span,
    entries: Seq<(OperandView, OperandView)>,
) -> Outcome<
    Option<OperandView>,
> {
    match raw_type(c, expression) {
        Err(fault) => Err(fault),
        Ok(ty) => match mapped(c, ty) {
            Err(fault) => Err(fault),
            Ok(ty) => always(aggregate(c, s, expression, AggregateView::Mapping { ty, entries })),
        },
    }
}

/// The receiver of a method call.
pub open spec fn receiver_rule(c: Context, s: State, callee: &Expression) -> Outcome<Option<OperandView>>
    decreases callee, 0int,
{
    match &callee.kind {
        ExpressionKind::Member { value, .. } => operand_rule(c, s, value),
        _ => Err("built-in call has no receiver"),
    }
}

/// A call that ends the program.
pub open spec fn panic_rule(c: Context, s: State, arguments: Seq<Argument>, expression: Span) -> Outcome<
    Option<OperandView>,
>
    decreases arguments, arguments.len() + 1,
{
    if arguments.len() != 1 {
        Err("panic call does not have exactly one argument")
    } else {
        match message_rule(c, s, &arguments[0]) {
            Err(fault) => Err(fault),
            Ok((s, None)) => Ok((s, None)),
            Ok((s, Some(message))) => match fail(c, s, expression, FailureOperation::ExplicitPanic) {
                Err(fault) => Err(fault),
                Ok((s, failure)) => match finish(s, TerminatorView::Panic { message, failure }, expression) {
                    Err(fault) => Err(fault),
                    Ok((s, _)) => Ok((s, None)),
                },
            },
        }
    }
}

pub open spec fn message_rule(c: Context, s: State, argument: &Argument) -> Outcome<Option<OperandView>>
    decreases argument, 0int,
{
    match &argument.kind {
        ArgumentKind::Positional(value) => expression_rule(c, s, value),
        ArgumentKind::Named { value, .. } => expression_rule(c, s, value),
    }
}

pub open spec fn call_rule(c: Context, s: State, e: &Expression) -> Outcome<Option<OperandView>>
    decreases e, 2int,
{
    match &e.kind {
        ExpressionKind::Call { callee, arguments } => {
            match target_of(c.analysis, e.span) {
                None => Err("call target fact is missing"),
                Some(target) => if target == CallTarget::Callable(CallableId::Intrinsic(IntrinsicId::Panic)) {
                    panic_rule(c, s, arguments@, e.span)
                } else {
                    match latest(c.analysis.constructors@, e.span) {
                        Some(i) => match arguments_from(c, s, arguments@, 0, seq![]) {
                            Err(fault) => Err(fault),
                            Ok((s, None)) => Ok((s, None)),
                            Ok((s, Some(values))) => always(
                                constructed(c, s, e.span, c.analysis.constructors@[i].kind, values),
                            ),
                        },
                        None => if target is Builtin {
                            match receiver_rule(c, s, callee) {
                                Err(fault) => Err(fault),
                                Ok((s, None)) => Ok((s, None)),
                                Ok((s, Some(receiver))) => match arguments_from(c, s, arguments@, 0, seq![]) {
                                    Err(fault) => Err(fault),
                                    Ok((s, None)) => Ok((s, None)),
                                    Ok((s, Some(values))) => always(
                                        called(c, s, e.span, target, Some(receiver), values),
                                    ),
                                },
                            }
                        } else {
                            match arguments_from(c, s, arguments@, 0, seq![]) {
                                Err(fault) => Err(fault),
                                Ok((s, None)) => Ok((s, None)),
                                Ok((s, Some(values))) => always(called(c, s, e.span, target, None, values)),
                            }
                        },
                    }
                },
            }
        },
        _ => Err("call target fact is missing"),
    }
}

/// A test of which alternative a union holds.
pub open spec fn test_rule(c: Context, s: State, value: &Expression, expression: Span) -> Outcome<Option<OperandView>>
    decreases value, 6int,
{
    match only(c.semantic.union_tests@, expression) {
        None => Err("union test does not have exactly one resolution"),
        Some(i) => {
            let test = c.semantic.union_tests@[i];
            match value_type(c, value.span) {
                Err(fault) => Err(fault),
                Ok(union) => if test.operand_union != union || payload_of(test.alternative@) != test.payload {
                    Err("union test resolution contradicts its operand")
                } else {
                    match operand_rule(c, s, value) {
                        Err(fault) => Err(fault),
                        Ok((s, None)) => Ok((s, None)),
                        Ok((s, Some(operand))) => match alternative_id(c, test.operand_union, test.alternative@) {
                            Err(fault) => Err(fault),
                            Ok(alternative) => match temporary(c, s, primitive_type(PrimitiveType::Bool)) {
                                Err(fault) => Err(fault),
                                Ok((s, destination)) => match emit(
                                    s,
                                    OperationView::UnionTest { destination, union: operand, alternative },
                                    expression,
                                ) {
                                    Err(fault) => Err(fault),
                                    Ok((s, _)) => Ok(
                                        (
                                            State {
                                                tests: s.tests.push(
                                                    TestView {
                                                        expression,
                                                        binding: test.binding,
                                                        union: operand,
                                                        alternative,
                                                        payload: test.payload,
                                                    },
                                                ),
                                                ..s
                                            },
                                            Some(value_of(destination)),
                                        ),
                                    ),
                                },
                            },
                        },
                    }
                },
            }
        },
    }
}

/// `and` and `or`: the right side is evaluated only where the left one does not decide.
pub open spec fn short_circuit_rule(c: Context, s: State, e: &Expression) -> Outcome<Option<OperandView>>
    decreases e, 2int,
{
    match &e.kind {
        ExpressionKind::Binary { left, operator, right, .. } => {
            match operand_rule(c, s, left) {
                Err(fault) => Err(fault),
                Ok((s, None)) => Ok((s, None)),
                Ok((s, Some(condition))) => match raw_type(c, e.span) {
                    Err(fault) => Err(fault),
                    Ok(ty) => match temporary(c, s, ty) {
                        Err(fault) => Err(fault),
                        Ok((s, result)) => match emit(
                            s,
                            OperationView::Copy { destination: result, operand: condition },
                            left.span,
                        ) {
                            Err(fault) => Err(fault),
                            Ok((s, _)) => match s.block {
                                None => Err("short-circuit expression lost its condition block"),
                                Some(decision) => {
                                    let (s, right_block) = open_block(s);
                                    match expression_rule(c, entered(s, right_block), right) {
                                        Err(fault) => Err(fault),
                                        Ok((s, value)) => {
                                            let assigned = match value {
                                                Some(value) => emit(
                                                    s,
                                                    OperationView::Assign { destination: whole(result), value },
                                                    right.span,
                                                ),
                                                None => Ok((s, ())),
                                            };
                                            match assigned {
                                                Err(fault) => Err(fault),
                                                Ok((s, _)) => {
                                                    let falling = s.block;
                                                    let (s, merge) = open_block(s);
                                                    let s = seal(
                                                        s,
                                                        decision,
                                                        if *operator == SourceOperator::LogicalAnd {
                                                            TerminatorView::Branch {
                                                                condition,
                                                                then_block: right_block,
                                                                else_block: merge,
                                                            }
                                                        } else {
                                                            TerminatorView::Branch {
                                                                condition,
                                                                then_block: merge,
                                                                else_block: right_block,
                                                            }
                                                        },
                                                        e.span,
                                                    );
                                                    let s = match falling {
                                                        Some(block) => seal(
                                                            s,
                                                            block,
                                                            TerminatorView::Jump(merge),
                                                            right.span,
                                                        ),
                                                        None => s,
                                                    };
                                                    Ok((entered(s, merge), Some(value_of(result))))
                                                },
                                            }
                                        },
                                    }
                                },
                            },
                        },
                    },
                },
            }
        },
        _ => Err("short-circuit expression lost its condition block"),
    }
}

/// Statements from one on, as far as control gets.
pub open spec fn statements_from(c: Context, s: State, statements: Seq<Statement>, from: int) -> Outcome<()>
    decreases statements, statements.len() - from,
{
    if from < 0 || from >= statements.len() || s.block is None {
        Ok((s, ()))
    } else {
        match statement_rule(c, s, &statements[from]) {
            Err(fault) => Err(fault),
            Ok((s, _)) => statements_from(c, s, statements, from + 1),
        }
    }
}

/// The statements of a block, and whether control is to get to its end.
pub open spec fn block_rule(c: Context, s: State, block: &Block) -> Outcome<bool>
    decreases block, 0int,
{
    match flow_of(c, FlowSubject::Block(block.span), "block does not have exactly one flow summary") {
        Err(fault) => Err(fault),
        Ok(expected) => match statements_from(c, s, block.statements@, 0) {
            Err(fault) => Err(fault),
            Ok((s, _)) => Ok((s, expected)),
        },
    }
}

/// A block whose value is not used.
pub open spec fn statement_block_rule(c: Context, s: State, block: &Block) -> Outcome<()>
    decreases block, 1int,
{
    match block_rule(c, s, block) {
        Err(fault) => Err(fault),
        Ok((s, expected)) => {
            let valued = match &block.value {
                Some(value) => if s.block is Some {
                    match expression_rule(c, s, value) {
                        Err(fault) => Err(fault),
                        Ok((s, _)) => Ok((s, ())),
                    }
                } else {
                    Ok((s, ()))
                },
                None => Ok((s, ())),
            };
            match valued {
                Err(fault) => Err(fault),
                Ok((s, _)) => if expected != (s.block is Some) {
                    Err("statement-block lowering contradicts its flow summary")
                } else {
                    Ok((s, ()))
                },
            }
        },
    }
}

/// A block whose value is used.
pub open spec fn block_value_rule(c: Context, s: State, block: &Block) -> Outcome<Option<OperandView>>
    decreases block, 1int,
{
    match block_rule(c, s, block) {
        Err(fault) => Err(fault),
        Ok((s, expected)) => {
            let valued = if s.block is None {
                Ok((s, None))
            } else {
                match &block.value {
                    Some(value) => expression_rule(c, s, value),
                    None => at_once(s, constant(c, unit_type(), ConstantView::Unit)),
                }
            };
            match valued {
                Err(fault) => Err(fault),
                Ok((s, value)) => if expected != (value is Some) || expected != (s.block is Some) {
                    Err("expression-block lowering contradicts its flow summary")
                } else {
                    Ok((s, value))
                },
            }
        },
    }
}

pub open spec fn statement_body_rule(c: Context, s: State, body: &StatementBody) -> Outcome<()>
    decreases body, 0int,
{
    match flow_of(
        c,
        FlowSubject::StatementBody(body.span),
        "statement body does not have exactly one flow summary",
    ) {
        Err(fault) => Err(fault),
        Ok(expected) => {
            let done = match &body.kind {
                StatementBodyKind::Block(block) => statement_block_rule(c, s, block),
                StatementBodyKind::Statement(statement) => statement_rule(c, s, statement),
            };
            match done {
                Err(fault) => Err(fault),
                Ok((s, _)) => if expected != (s.block is Some) {
                    Err("statement-body lowering contradicts its flow summary")
                } else {
                    Ok((s, ()))
                },
            }
        },
    }
}

pub open spec fn expression_body_rule(c: Context, s: State, body: &ExpressionBody) -> Outcome<Option<OperandView>>
    decreases body, 0int,
{
    match flow_of(
        c,
        FlowSubject::ExpressionBody(body.span),
        "expression body does not have exactly one flow summary",
    ) {
        Err(fault) => Err(fault),
        Ok(expected) => {
            let done = match &body.kind {
                ExpressionBodyKind::Expression(expression) => expression_rule(c, s, expression),
                ExpressionBodyKind::Block(block) => block_value_rule(c, s, block),
            };
            match done {
                Err(fault) => Err(fault),
                Ok((s, value)) => if expected != (value is Some) || expected != (s.block is Some) {
                    Err("expression-body lowering contradicts its flow summary")
                } else {
                    Ok((s, value))
                },
            }
        },
    }
}

/// A branch on a condition; control is then in the first block, and the second is for when it does not hold.
pub open spec fn branched(
    c: Context,
    s: State,
    decision: BlockId,
    condition: OperandView,
    tested: Span,
    condition_span: Span,
    body_span: Span,
) -> Outcome<BlockId> {
    let (s, body_block) = open_block(s);
    let (s, false_block) = open_block(s);
    let s = seal(
        s,
        decision,
        TerminatorView::Branch { condition, then_block: body_block, else_block: false_block },
        condition_span,
    );
    match activated(c, entered(s, body_block), tested, body_span) {
        Err(fault) => Err(fault),
        Ok((s, _)) => Ok((s, false_block)),
    }
}

/// Branches from one on; the flag says whether control gets past the last condition.
pub open spec fn branches_from(
    c: Context,
    s: State,
    branches: Seq<ConditionalStatementBranch>,
    from: int,
    paths: Seq<(BlockId, Span)>,
) -> Outcome<(Seq<(BlockId, Span)>, bool)>
    decreases branches, branches.len() - from,
{
    if from < 0 || from >= branches.len() {
        Ok((s, (paths, true)))
    } else {
        let outer = s.narrowings;
        match condition_rule(c, s, &branches[from]) {
            Err(fault) => Err(fault),
            Ok((s, None)) => Ok((s, (paths, false))),
            Ok((s, Some(false_block))) => {
                let paths = with_path(paths, s, branches[from].body.span);
                branches_from(c, entered(restored(s, outer), false_block), branches, from + 1, paths)
            },
        }
    }
}

/// One branch with its body; the block is for when the condition does not hold.
pub open spec fn condition_rule(c: Context, s: State, branch: &ConditionalStatementBranch) -> Outcome<Option<BlockId>>
    decreases branch, 0int,
{
    match expression_rule(c, s, &branch.condition) {
        Err(fault) => Err(fault),
        Ok((s, None)) => Ok((s, None)),
        Ok((s, Some(condition))) => match s.block {
            None => Err("conditional lost its condition block"),
            Some(decision) => match branched(
                c,
                s,
                decision,
                condition,
                stripped(&branch.condition),
                branch.condition.span,
                branch.body.span,
            ) {
                Err(fault) => Err(fault),
                Ok((s, false_block)) => match statement_body_rule(c, s, &branch.body) {
                    Err(fault) => Err(fault),
                    Ok((s, _)) => Ok((s, Some(false_block))),
                },
            },
        },
    }
}

/// An `if` statement.
pub open spec fn if_rule(c: Context, s: State, statement: &Statement) -> Outcome<()>
    decreases statement, 0int,
{
    match &statement.kind {
        StatementKind::If { branches, else_body: other } => {
            let enclosing = s.narrowings;
            match branches_from(c, s, branches@, 0, seq![]) {
                Err(fault) => Err(fault),
                Ok((s, (paths, through))) => if !through {
                    Ok((restored(merged(s, paths).0, enclosing), ()))
                } else {
                    match else_rule(c, s, other) {
                        Err(fault) => Err(fault),
                        Ok((s, _)) => {
                            let paths = with_path(
                                paths,
                                s,
                                match other {
                                    Some(body) => body.span,
                                    None => statement.span,
                                },
                            );
                            Ok((restored(merged(s, paths).0, enclosing), ()))
                        },
                    }
                },
            }
        },
        _ => Err("conditional lost its condition block"),
    }
}

/// A body that may be missing.
pub open spec fn else_rule(c: Context, s: State, body: &Option<StatementBody>) -> Outcome<()>
    decreases body, 0int,
{
    match body {
        Some(body) => statement_body_rule(c, s, body),
        None => Ok((s, ())),
    }
}

/// One branch of an `if` expression, whose value goes to a local.
pub open spec fn choice_rule(
    c: Context,
    s: State,
    branch: &ConditionalExpressionBranch,
    result: crate::ir::LocalId,
) -> Outcome<Option<(BlockId, bool)>>
    decreases branch, 0int,
{
    match expression_rule(c, s, &branch.condition) {
        Err(fault) => Err(fault),
        Ok((s, None)) => Ok((s, None)),
        Ok((s, Some(condition))) => match s.block {
            None => Err("if expression lost its condition block"),
            Some(decision) => match branched(
                c,
                s,
                decision,
                condition,
                stripped(&branch.condition),
                branch.condition.span,
                branch.body.span,
            ) {
                Err(fault) => Err(fault),
                Ok((s, false_block)) => match result_rule(c, s, &branch.body, result) {
                    Err(fault) => Err(fault),
                    Ok((s, valued)) => Ok((s, Some((false_block, valued)))),
                },
            },
        },
    }
}

/// A body whose value, if control gets to its end, goes to a local.
pub open spec fn result_rule(c: Context, s: State, body: &ExpressionBody, result: crate::ir::LocalId) -> Outcome<bool>
    decreases body, 1int,
{
    match expression_body_rule(c, s, body) {
        Err(fault) => Err(fault),
        Ok((s, None)) => Ok((s, false)),
        Ok((s, Some(value))) => match emit(
            s,
            OperationView::Assign { destination: whole(result), value },
            body.span,
        ) {
            Err(fault) => Err(fault),
            Ok((s, _)) => Ok((s, true)),
        },
    }
}

/// Branches of an `if` expression from one on; the flag says whether control gets past the last condition.
pub open spec fn choices_from(
    c: Context,
    s: State,
    branches: Seq<ConditionalExpressionBranch>,
    result: crate::ir::LocalId,
    from: int,
    paths: Seq<(BlockId, Span)>,
) -> Outcome<(Seq<(BlockId, Span)>, bool)>
    decreases branches, branches.len() - from,
{
    if from < 0 || from >= branches.len() {
        Ok((s, (paths, true)))
    } else {
        let outer = s.narrowings;
        match choice_rule(c, s, &branches[from], result) {
            Err(fault) => Err(fault),
            Ok((s, None)) => Ok((s, (paths, false))),
            Ok((s, Some((false_block, valued)))) => {
                let paths = if valued {
                    with_path(paths, s, branches[from].body.span)
                } else {
                    paths
                };
                choices_from(c, entered(restored(s, outer), false_block), branches, result, from + 1, paths)
            },
        }
    }
}

/// The paths of an `if` expression that meet, and its value if there are any.
pub open spec fn chosen(
    s: State,
    paths: Seq<(BlockId, Span)>,
    enclosing: Seq<Narrowing>,
    result: crate::ir::LocalId,
) -> (State, Option<OperandView>) {
    let (s, any) = merged(s, paths);
    (
        restored(s, enclosing),
        if any {
            Some(value_of(result))
        } else {
            None
        },
    )
}

/// An `if` expression.
pub open spec fn if_expression_rule(c: Context, s: State, e: &Expression) -> Outcome<Option<OperandView>>
    decreases e, 2int,
{
    match &e.kind {
        ExpressionKind::If { branches, else_branch: other } => {
            let enclosing = s.narrowings;
            match raw_type(c, e.span) {
                Err(fault) => Err(fault),
                Ok(ty) => match temporary(c, s, ty) {
                    Err(fault) => Err(fault),
                    Ok((s, result)) => match choices_from(c, s, branches@, result, 0, seq![]) {
                        Err(fault) => Err(fault),
                        Ok((s, (paths, through))) => if !through {
                            Ok(chosen(s, paths, enclosing, result))
                        } else {
                            match result_rule(c, s, other, result) {
                                Err(fault) => Err(fault),
                                Ok((s, valued)) => Ok(
                                    chosen(
                                        s,
                                        if valued {
                                            with_path(paths, s, other.span)
                                        } else {
                                            paths
                                        },
                                        enclosing,
                                        result,
                                    ),
                                ),
                            }
                        },
                    },
                },
            }
        },
        _ => Err("if expression lost its condition block"),
    }
}

/// A `while` loop.
pub open spec fn while_rule(c: Context, s: State, statement: &Statement) -> Outcome<()>
    decreases statement, 0int,
{
    match &statement.kind {
        StatementKind::While { condition, body } => {
            let (s, condition_block) = open_block(s);
            match finish(s, TerminatorView::Jump(condition_block), statement.span) {
                Err(fault) => Err(fault),
                Ok((s, _)) => match expression_rule(c, entered(s, condition_block), condition) {
                    Err(fault) => Err(fault),
                    Ok((s, None)) => Ok((s, ())),
                    Ok((s, Some(value))) => {
                        let (s, body_block) = open_block(s);
                        let (s, exit_block) = open_block(s);
                        match finish(
                            s,
                            TerminatorView::Branch { condition: value, then_block: body_block, else_block: exit_block },
                            condition.span,
                        ) {
                            Err(fault) => Err(fault),
                            Ok((s, _)) => {
                                let outer = s.narrowings;
                                let s = looping(
                                    s,
                                    LoopView {
                                        source: statement.span,
                                        continue_target: condition_block,
                                        break_target: exit_block,
                                        cleanup: None,
                                    },
                                );
                                match activated(c, entered(s, body_block), stripped(condition), body.span) {
                                    Err(fault) => Err(fault),
                                    Ok((s, _)) => match statement_body_rule(c, s, body) {
                                        Err(fault) => Err(fault),
                                        Ok((s, _)) => match closed_loop(s, outer, condition_block, body.span) {
                                            Err(fault) => Err(fault),
                                            Ok((s, _)) => Ok((entered(s, exit_block), ())),
                                        },
                                    },
                                }
                            },
                        }
                    },
                },
            }
        },
        _ => Err("conditional lost its condition block"),
    }
}

/// Inside of one more loop.
#[verifier::opaque]
pub open spec fn looping(s: State, entry: LoopView) -> State {
    State { loops: s.loops.push(entry), ..s }
}

/// Out of the innermost loop, whose body goes on in a block.
#[verifier::opaque]
pub open spec fn closed_loop(s: State, narrowings: Seq<Narrowing>, next: BlockId, span: Span) -> Outcome<()> {
    let s = State {
        loops: if s.loops.len() > 0 {
            s.loops.drop_last()
        } else {
            s.loops
        },
        narrowings,
        ..s
    };
    if s.block is Some {
        finish(s, TerminatorView::Jump(next), span)
    } else {
        Ok((s, ()))
    }
}

/// Where a `for` loop stands: its blocks and its locals.
pub struct Iteration {
    pub element: crate::ir::LocalId,
    pub iterable: OperandView,
    pub length: crate::ir::LocalId,
    pub index: crate::ir::LocalId,
    pub header: BlockId,
    pub body: BlockId,
    pub advance: BlockId,
    pub cleanup: BlockId,
    pub exit: BlockId,
}

/// The type of the elements of what is iterated over, and how its length is asked for.
pub open spec fn elements_of(c: Context, iterable: crate::analysis::TypeId) -> Result<
    (crate::analysis::TypeId, BuiltinMethod),
    &'static str,
> {
    if c.analysis.types.has(iterable) {
        match c.analysis.types.entries@[iterable.0 as int] {
            ResolvedType::List(element) => Ok((element, BuiltinMethod::ListLen)),
            ResolvedType::Mapping { key, .. } => Ok((key, BuiltinMethod::MapLen)),
            _ => Err("for-loop iterable is not a list or map"),
        }
    } else {
        Err("for-loop iterable is not a list or map")
    }
}

/// What stands before the header of a `for` loop: the iteration begins, and the index is zero.
#[verifier::opaque]
pub open spec fn iteration_begun(
    c: Context,
    s: State,
    binding_type: crate::analysis::TypeId,
    element: crate::ir::LocalId,
    iterable: OperandView,
    iterable_span: Span,
    span: Span,
) -> Outcome<Iteration> {
    let int_type = primitive_type(PrimitiveType::Int);
    match source_type(c, s, iterable) {
        Err(fault) => Err(fault),
        Ok(ty) => match elements_of(c, ty) {
            Err(fault) => Err(fault),
            Ok((element_type, method)) => if binding_type != element_type {
                Err("for-loop binding type contradicts its iterable")
            } else {
                match temporary(c, s, int_type) {
                    Err(fault) => Err(fault),
                    Ok((s, length)) => match temporary(c, s, int_type) {
                        Err(fault) => Err(fault),
                        Ok((s, index)) => match emit(s, OperationView::BeginIteration { iterable }, iterable_span) {
                            Err(fault) => Err(fault),
                            Ok((s, _)) => match emit(
                                s,
                                OperationView::Builtin {
                                    destination: length,
                                    method,
                                    receiver: iterable,
                                    arguments: seq![],
                                    failure: None,
                                },
                                iterable_span,
                            ) {
                                Err(fault) => Err(fault),
                                Ok((s, _)) => match constant(c, int_type, ConstantView::Integer(0)) {
                                    Err(fault) => Err(fault),
                                    Ok(zero) => match emit(
                                        s,
                                        OperationView::Assign { destination: whole(index), value: zero },
                                        span,
                                    ) {
                                        Err(fault) => Err(fault),
                                        Ok((s, _)) => {
                                            let (s, header) = open_block(s);
                                            let (s, body) = open_block(s);
                                            let (s, advance) = open_block(s);
                                            let (s, cleanup) = open_block(s);
                                            let (s, exit) = open_block(s);
                                            match finish(s, TerminatorView::Jump(header), span) {
                                                Err(fault) => Err(fault),
                                                Ok((s, _)) => Ok(
                                                    (
                                                        s,
                                                        Iteration {
                                                            element,
                                                            iterable,
                                                            length,
                                                            index,
                                                            header,
                                                            body,
                                                            advance,
                                                            cleanup,
                                                            exit,
                                                        },
                                                    ),
                                                ),
                                            }
                                        },
                                    },
                                },
                            },
                        },
                    },
                }
            },
        },
    }
}

/// The header of a `for` loop, which asks whether an element is left, and the element at the start of the body.
#[verifier::opaque]
pub open spec fn iteration_entered(c: Context, s: State, at: Iteration, span: Span) -> Outcome<()> {
    match temporary(c, entered(s, at.header), primitive_type(PrimitiveType::Bool)) {
        Err(fault) => Err(fault),
        Ok((s, condition)) => match emit(
            s,
            OperationView::Binary {
                destination: condition,
                operator: BinaryOperator::Less,
                left: value_of(at.index),
                right: value_of(at.length),
            },
            span,
        ) {
            Err(fault) => Err(fault),
            Ok((s, _)) => match finish(
                s,
                TerminatorView::Branch {
                    condition: value_of(condition),
                    then_block: at.body,
                    else_block: at.cleanup,
                },
                span,
            ) {
                Err(fault) => Err(fault),
                Ok((s, _)) => {
                    let s = looping(
                        s,
                        LoopView {
                            source: span,
                            continue_target: at.advance,
                            break_target: at.cleanup,
                            cleanup: Some(at.iterable),
                        },
                    );
                    emit(
                        entered(s, at.body),
                        OperationView::IterationValue {
                            destination: at.element,
                            iterable: at.iterable,
                            index: value_of(at.index),
                        },
                        span,
                    )
                },
            },
        },
    }
}

/// The step to the next element of a `for` loop, and the end of the iteration.
#[verifier::opaque]
pub open spec fn iteration_ended(c: Context, s: State, at: Iteration, span: Span) -> Outcome<()> {
    let int_type = primitive_type(PrimitiveType::Int);
    match constant(c, int_type, ConstantView::Integer(1)) {
        Err(fault) => Err(fault),
        Ok(one) => match fail(c, entered(s, at.advance), span, FailureOperation::IntegerAdd) {
            Err(fault) => Err(fault),
            Ok((s, failure)) => match emit(
                s,
                OperationView::Check(
                    CheckView::IntegerOverflow {
                        operation: IntegerOperation::Add,
                        left: value_of(at.index),
                        right: one,
                        failure,
                    },
                ),
                span,
            ) {
                Err(fault) => Err(fault),
                Ok((s, _)) => match emit(
                    s,
                    OperationView::Binary {
                        destination: at.index,
                        operator: BinaryOperator::Add,
                        left: value_of(at.index),
                        right: one,
                    },
                    span,
                ) {
                    Err(fault) => Err(fault),
                    Ok((s, _)) => match finish(s, TerminatorView::Jump(at.header), span) {
                        Err(fault) => Err(fault),
                        Ok((s, _)) => match emit(
                            entered(s, at.cleanup),
                            OperationView::EndIteration { iterable: at.iterable },
                            span,
                        ) {
                            Err(fault) => Err(fault),
                            Ok((s, _)) => match finish(s, TerminatorView::Jump(at.exit), span) {
                                Err(fault) => Err(fault),
                                Ok((s, _)) => Ok((entered(s, at.exit), ())),
                            },
                        },
                    },
                },
            },
        },
    }
}

/// The local of the element of a `for` loop, with the type of the binding.
#[verifier::opaque]
pub open spec fn element_declared(c: Context, s: State, name: Span, span: Span) -> Outcome<
    (crate::ir::LocalId, crate::analysis::TypeId),
> {
    match introduced_from(c.analysis.bindings@, BindingNode::Loop(span), 0) {
        None => Err("for loop lacks a binding identity"),
        Some(binding) => match binding_state(c, binding) {
            TypeState::Resolved(ty) => match mapped(c, ty) {
                Err(fault) => Err(fault),
                Ok(target) => {
                    let (s, local) = declare(
                        s,
                        target,
                        Some(text_at(c.analysis.source, name)),
                        LocalOrigin::Binding,
                    );
                    Ok((bind(s, binding, local), (local, ty)))
                },
            },
            _ => Err("for-loop binding type is unresolved"),
        },
    }
}

/// A `for` loop.
pub open spec fn for_rule(c: Context, s: State, statement: &Statement) -> Outcome<()>
    decreases statement, 0int,
{
    match &statement.kind {
        StatementKind::For { binding, iterable, body } => {
            match element_declared(c, s, binding.span, statement.span) {
                Err(fault) => Err(fault),
                Ok((s, (element, binding_type))) => match operand_rule(c, s, iterable) {
                    Err(fault) => Err(fault),
                    Ok((s, None)) => Ok((s, ())),
                    Ok((s, Some(operand))) => match iteration_begun(
                        c,
                        s,
                        binding_type,
                        element,
                        operand,
                        iterable.span,
                        statement.span,
                    ) {
                        Err(fault) => Err(fault),
                        Ok((s, at)) => {
                            let outer = s.narrowings;
                            match iteration_entered(c, s, at, statement.span) {
                                Err(fault) => Err(fault),
                                Ok((s, _)) => match statement_body_rule(c, s, body) {
                                    Err(fault) => Err(fault),
                                    Ok((s, _)) => match closed_loop(s, outer, at.advance, body.span) {
                                        Err(fault) => Err(fault),
                                        Ok((s, _)) => iteration_ended(c, s, at, statement.span),
                                    },
                                },
                            }
                        },
                    },
                },
            }
        },
        _ => Err("non-for statement reached for-loop lowering"),
    }
}

/// Arms of a `switch` from one on.
pub open spec fn arms_from(
    c: Context,
    s: State,
    arms: Seq<SwitchArm>,
    switch: SwitchResolution,
    union: OperandView,
    blocks: Seq<BlockId>,
    outer: Seq<Narrowing>,
    from: int,
    paths: Seq<(BlockId, Span)>,
) -> Outcome<Seq<(BlockId, Span)>>
    decreases arms, arms.len() - from,
{
    if from < 0 || from >= arms.len() {
        Ok((s, paths))
    } else if switch.arms@[from].arm != arms[from].span {
        Err("switch arm resolution is out of source order")
    } else {
        match arm_narrowed(
            c,
            entered(restored(s, outer), blocks[from]),
            switch,
            union,
            from,
            arms[from].label.span,
        ) {
            Err(fault) => Err(fault),
            Ok((s, _)) => match arm_rule(c, s, &arms[from]) {
                Err(fault) => Err(fault),
                Ok((s, _)) => arms_from(
                    c,
                    left(s),
                    arms,
                    switch,
                    union,
                    blocks,
                    outer,
                    from + 1,
                    with_path(paths, s, arms[from].body.span),
                ),
            },
        }
    }
}

pub open spec fn arm_rule(c: Context, s: State, arm: &SwitchArm) -> Outcome<()>
    decreases arm, 0int,
{
    statement_body_rule(c, s, &arm.body)
}

/// The choice of a `switch` between its arms: where its alternatives go.
#[verifier::opaque]
pub open spec fn dispatched(
    c: Context,
    s: State,
    switch: SwitchResolution,
    union: OperandView,
    arms: nat,
    span: Span,
) -> Outcome<
    (Seq<BlockId>, Option<BlockId>),
> {
    match alternatives_of(
        c,
        switch.operand_union,
        "union identity names a non-union nominal",
        "union identity names a non-union type",
    ) {
        Err(fault) => Err(fault),
        Ok(alternatives) => {
            let (s, blocks) = open_blocks(s, arms as int);
            let (s, other) = if switch.covered@.len() < alternatives.len() {
                let (s, block) = open_block(s);
                (s, Some(block))
            } else {
                (s, None)
            };
            match targets_from(c, switch, alternatives, blocks, other, 0, seq![]) {
                Err(fault) => Err(fault),
                Ok(targets) => match finish(s, TerminatorView::Switch { union, targets }, span) {
                    Err(fault) => Err(fault),
                    Ok((s, _)) => Ok((s, (blocks, other))),
                },
            }
        },
    }
}

/// The rest of a `switch`, where it has one.
pub open spec fn rest_rule(
    c: Context,
    s: State,
    other: Option<BlockId>,
    body: &Option<StatementBody>,
    outer: Seq<Narrowing>,
    paths: Seq<(BlockId, Span)>,
) -> Outcome<Seq<(BlockId, Span)>>
    decreases body, 1int,
{
    match other {
        None => Ok((s, paths)),
        Some(block) => match body {
            None => Err("switch needs an else target but has no else body"),
            Some(body) => match statement_body_rule(c, entered(restored(s, outer), block), body) {
                Err(fault) => Err(fault),
                Ok((s, _)) => Ok((left(s), with_path(paths, s, body.span))),
            },
        },
    }
}

/// A `switch` statement.
pub open spec fn switch_rule(c: Context, s: State, statement: &Statement) -> Outcome<()>
    decreases statement, 0int,
{
    match &statement.kind {
        StatementKind::Switch { value, arms, else_body: other } => {
            match only(c.semantic.switches@, statement.span) {
                None => Err("switch does not have exactly one resolution"),
                Some(i) => {
                    let switch = c.semantic.switches@[i];
                    match value_type(c, value.span) {
                        Err(fault) => Err(fault),
                        Ok(union_type) => if switch.operand_union != union_type || switch.arms@.len() != arms@.len() {
                            Err("switch resolution contradicts its syntax or operand")
                        } else {
                            match operand_rule(c, s, value) {
                                Err(fault) => Err(fault),
                                Ok((s, None)) => Ok((s, ())),
                                Ok((s, Some(union))) => match dispatched(c, s, switch, union, arms@.len(), value.span) {
                                    Err(fault) => Err(fault),
                                    Ok((s, (blocks, rest))) => {
                                        let outer = s.narrowings;
                                        match arms_from(c, s, arms@, switch, union, blocks, outer, 0, seq![]) {
                                            Err(fault) => Err(fault),
                                            Ok((s, paths)) => match rest_rule(c, s, rest, other, outer, paths) {
                                                Err(fault) => Err(fault),
                                                Ok((s, paths)) => Ok((merged(restored(s, outer), paths).0, ())),
                                            },
                                        }
                                    },
                                },
                            }
                        },
                    }
                },
            }
        },
        _ => Err("switch does not have exactly one resolution"),
    }
}

/// The loop that a `break` or `continue` leaves or repeats, among the first `count`.
pub open spec fn loop_before(loops: Seq<LoopView>, source: Span, count: int) -> Option<int>
    decreases count,
{
    if count <= 0 {
        None
    } else if loops[count - 1].source == source {
        Some(count - 1)
    } else {
        loop_before(loops, source, count - 1)
    }
}

/// A `break` or `continue`.
#[verifier::opaque]
pub open spec fn control_rule(c: Context, s: State, breaks: bool, span: Span) -> Outcome<()> {
    match only(c.semantic.flow.loop_controls@, span) {
        None => Err("loop control does not have exactly one target record"),
        Some(i) => match loop_before(s.loops, c.semantic.flow.loop_controls@[i].target, s.loops.len() as int) {
            None => Err("loop control target is not active"),
            Some(at) => finish(
                s,
                TerminatorView::Jump(
                    if breaks {
                        s.loops[at].break_target
                    } else {
                        s.loops[at].continue_target
                    },
                ),
                span,
            ),
        },
    }
}

/// Whether the fact about a `return` agrees with its syntax.
#[verifier::opaque]
pub open spec fn return_checked(c: Context, value: Option<Span>, span: Span) -> Result<int, &'static str> {
    match only(c.semantic.flow.returns@, span) {
        None => Err("explicit return does not have exactly one flow record"),
        Some(i) => {
            let record = c.semantic.flow.returns@[i];
            let state = match value {
                None => TypeState::Resolved(unit_type()),
                Some(value) => match state_of(c.analysis, value) {
                    Some(state) => state,
                    None => TypeState::Error,
                },
            };
            if record.function != c.function {
                Err("explicit return is linked to the wrong function")
            } else if record.value != value {
                Err("explicit return record contradicts its syntax")
            } else if record.value_state != state {
                Err("explicit return record has a contradictory value type")
            } else {
                Ok(i)
            }
        },
    }
}

/// The value of a `return` without one: the unit value, put into the result union where that is asked for.
#[verifier::opaque]
pub open spec fn unit_returned(c: Context, s: State, record: int, span: Span) -> Outcome<OperandView> {
    match constant(c, unit_type(), ConstantView::Unit) {
        Err(fault) => Err(fault),
        Ok(value) => match c.semantic.flow.returns@[record].unit_injection {
            None => Ok((s, value)),
            Some(alternative) => if c.function.0 < c.analysis.function_signatures@.len() {
                match c.analysis.function_signatures@[c.function.0 as int].result {
                    TypeState::Resolved(union) => inject(c, s, value, union, alternative@, span),
                    _ => Err("return function result is unresolved"),
                }
            } else {
                Err("return function result is unresolved")
            },
        },
    }
}

/// A `return`: running iterations are ended first.
pub open spec fn return_rule(c: Context, s: State, value: &Option<Expression>, span: Span) -> Outcome<()>
    decreases value, 0int,
{
    let syntax = match value {
        Some(value) => Some(value.span),
        None => None,
    };
    match return_checked(c, syntax, span) {
        Err(fault) => Err(fault),
        Ok(record) => {
            let returned = match value {
                Some(value) => expression_rule(c, s, value),
                None => always(unit_returned(c, s, record, span)),
            };
            match returned {
                Err(fault) => Err(fault),
                Ok((s, None)) => Ok((s, ())),
                Ok((s, Some(value))) => match cleaned(s, s.loops, s.loops.len() as int, span) {
                    Err(fault) => Err(fault),
                    Ok((s, _)) => finish(s, TerminatorView::Return(value), span),
                },
            }
        },
    }
}

/// What an assignment with the given path must be authorized as.
pub open spec fn operation_of(steps: Seq<AccessPathStep>) -> Result<MutabilityOperation, &'static str> {
    if steps.len() == 0 {
        Ok(MutabilityOperation::Rebind)
    } else {
        match steps.last() {
            AccessPathStep::StructMember { .. } => Ok(MutabilityOperation::ReplaceStructField),
            AccessPathStep::ListIndex { .. } => Ok(MutabilityOperation::ReplaceListElement),
            AccessPathStep::MapIndex { .. } => Ok(MutabilityOperation::ReplaceMapElement),
            AccessPathStep::TupleMember { .. } => Err("tuple assignment reached lowering"),
        }
    }
}

/// How many of the first `count` authorizations are for an assignment.
pub open spec fn authorizations(rights: Seq<MutabilityResolution>, target: Span, count: int) -> nat
    decreases count,
{
    if count <= 0 {
        0
    } else if rights[count - 1].subject == MutabilitySubject::Assignment(target) {
        authorizations(rights, target, count - 1) + 1
    } else {
        authorizations(rights, target, count - 1)
    }
}

/// The latest of the first `count` authorizations for an assignment.
pub open spec fn authorization(rights: Seq<MutabilityResolution>, target: Span, count: int) -> Option<int>
    decreases count,
{
    if count <= 0 {
        None
    } else if rights[count - 1].subject == MutabilitySubject::Assignment(target) {
        Some(count - 1)
    } else {
        authorization(rights, target, count - 1)
    }
}

/// The annotation of an assignment that its one authorization agrees with, and the binding at its root.
#[verifier::opaque]
pub open spec fn authorized(c: Context, target: &AssignmentTarget) -> Result<
    (int, crate::analysis::BindingId),
    &'static str,
> {
    let rights = c.semantic.mutability@;
    match latest(c.analysis.assignment_targets@, target.span) {
        None => Err("assignment target fact is missing"),
        Some(i) => {
            let annotation = c.analysis.assignment_targets@[i];
            match annotation.root {
                None => Err("assignment target has no root"),
                Some(root) => match authorization(rights, target.span, rights.len() as int) {
                    None => Err("assignment does not have exactly one mutation authorization"),
                    Some(j) => if authorizations(rights, target.span, rights.len() as int) != 1 {
                        Err("assignment does not have exactly one mutation authorization")
                    } else if rights[j].root != root || !(rights[j].path matches MutabilityPath::Assignment(path)
                        && path@.len() == annotation.steps@.len()) {
                        Err("assignment mutation authorization contradicts its typed target")
                    } else {
                        match use_of(c.analysis, target.root.span) {
                            None => Err("assignment root has no name-use fact"),
                            Some(name) => if name.resolution != NameResolution::Binding(root) || name.access
                                != rights[j].access {
                                Err("assignment mutation authorization contradicts its root access")
                            } else {
                                match operation_of(annotation.steps@) {
                                    Err(fault) => Err(fault),
                                    Ok(operation) => if rights[j].operation != operation {
                                        Err("assignment mutation authorization has the wrong operation")
                                    } else {
                                        Ok((i, root))
                                    },
                                }
                            },
                        }
                    },
                },
            }
        },
    }
}

/// The place at the root of an assignment.
#[verifier::opaque]
pub open spec fn rooted(c: Context, s: State, root: crate::analysis::BindingId, direct: bool, span: Span) -> Outcome<
    PlaceView,
> {
    if direct {
        match crate::lowering::rules::bound(s, root) {
            None => Err("assignment root has not been allocated"),
            Some(local) => Ok((s, whole(local))),
        }
    } else {
        match local_of(s, root, None) {
            None => Err("assignment root has not been allocated"),
            Some(local) => match stabilized(c, s, value_of(local), span) {
                Err(fault) => Err(fault),
                Ok((s, OperandView::Copy(place))) => Ok((s, place)),
                Ok((s, OperandView::Constant { .. })) => Err("assignment root has not been allocated"),
            },
        }
    }
}

/// The first suffix from one on with the given span.
pub open spec fn suffix_from(suffixes: Seq<AssignmentTargetSuffix>, span: Span, from: int) -> Option<int>
    decreases suffixes.len() - from,
{
    if from < 0 || from >= suffixes.len() {
        None
    } else if suffixes[from].span == span {
        Some(from)
    } else {
        suffix_from(suffixes, span, from + 1)
    }
}

/// The local that holds the index of a suffix.
pub open spec fn suffix_rule(
    c: Context,
    s: State,
    suffix: &AssignmentTargetSuffix,
) -> Outcome<Option<crate::ir::LocalId>>
    decreases suffix, 0int,
{
    match &suffix.kind {
        AssignmentTargetSuffixKind::Member(_) => Err("index path step has no index syntax"),
        AssignmentTargetSuffixKind::Index(index) => match expression_rule(c, s, index) {
            Err(fault) => Err(fault),
            Ok((s, None)) => Ok((s, None)),
            Ok((s, Some(value))) => match materialized(c, s, value, index.span) {
                Err(fault) => Err(fault),
                Ok((s, OperandView::Copy(place))) => Ok((s, Some(place.local))),
                Ok((s, OperandView::Constant { .. })) => Err("assignment index did not materialize"),
            },
        },
    }
}

/// The place behind the steps of an assignment from one on.
pub open spec fn steps_from(
    c: Context,
    s: State,
    suffixes: Seq<AssignmentTargetSuffix>,
    steps: Seq<AccessPathStep>,
    place: PlaceView,
    from: int,
) -> Outcome<Option<PlaceView>>
    decreases suffixes, steps.len() - from,
{
    if from < 0 || from >= steps.len() {
        Ok((s, Some(place)))
    } else {
        match steps[from] {
            AccessPathStep::StructMember { declaration, field, storage, .. } => match struct_projection(
                c,
                declaration,
                field,
                storage,
            ) {
                Err(fault) => Err(fault),
                Ok(projection) => steps_from(c, s, suffixes, steps, behind(place, projection), from + 1),
            },
            AccessPathStep::TupleMember { declaration, position, .. } => match tuple_projection(
                c,
                declaration,
                position,
            ) {
                Err(fault) => Err(fault),
                Ok(projection) => steps_from(c, s, suffixes, steps, behind(place, projection), from + 1),
            },
            AccessPathStep::ListIndex { suffix, .. } => match index_rule(c, s, suffixes, suffix) {
                Err(fault) => Err(fault),
                Ok((s, None)) => Ok((s, None)),
                Ok((s, Some(index))) => match fail(c, s, suffix, FailureOperation::ListIndex) {
                    Err(fault) => Err(fault),
                    Ok((s, failure)) => steps_from(
                        c,
                        s,
                        suffixes,
                        steps,
                        behind(place, Projection::ListIndex { index, failure }),
                        from + 1,
                    ),
                },
            },
            AccessPathStep::MapIndex { suffix, .. } => match index_rule(c, s, suffixes, suffix) {
                Err(fault) => Err(fault),
                Ok((s, None)) => Ok((s, None)),
                Ok((s, Some(key))) => match fail(c, s, suffix, FailureOperation::MapIndex) {
                    Err(fault) => Err(fault),
                    Ok((s, failure)) => steps_from(
                        c,
                        s,
                        suffixes,
                        steps,
                        behind(place, Projection::MapIndex { key, failure }),
                        from + 1,
                    ),
                },
            },
        }
    }
}

/// The local that holds the index of the suffix with the given span.
pub open spec fn index_rule(c: Context, s: State, suffixes: Seq<AssignmentTargetSuffix>, span: Span) -> Outcome<
    Option<crate::ir::LocalId>,
>
    decreases suffixes, 0int,
{
    match suffix_from(suffixes, span, 0) {
        None => Err("index path step has no index syntax"),
        Some(i) => if 0 <= i < suffixes.len() {
            suffix_rule(c, s, &suffixes[i])
        } else {
            Err("index path step has no index syntax")
        },
    }
}

/// The place that an assignment replaces.
#[verifier::opaque]
pub open spec fn place_rule(
    c: Context,
    s: State,
    target: &AssignmentTarget,
    steps: Seq<AccessPathStep>,
    root: crate::analysis::BindingId,
) -> Outcome<Option<PlaceView>>
    decreases target, 0int,
{
    match rooted(c, s, root, steps.len() == 0, target.root.span) {
        Err(fault) => Err(fault),
        Ok((s, place)) => steps_from(c, s, target.suffixes@, steps, place, 0),
    }
}

/// An assignment.
pub open spec fn assignment_rule(c: Context, s: State, statement: &Statement) -> Outcome<()>
    decreases statement, 0int,
{
    match &statement.kind {
        StatementKind::Assignment { target, operator, operator_span, value } => {
            match authorized(c, target) {
                Err(fault) => Err(fault),
                Ok((i, root)) => {
                    let annotation = c.analysis.assignment_targets@[i];
                    let direct = annotation.steps@.len() == 0;
                    match place_rule(c, s, target, annotation.steps@, root) {
                        Err(fault) => Err(fault),
                        Ok((s, None)) => Ok((s, ())),
                        Ok((s, Some(place))) => match assigned_rule(
                            c,
                            s,
                            place,
                            annotation.state,
                            *operator,
                            *operator_span,
                            value,
                            target.span,
                            statement.span,
                        ) {
                            Err(fault) => Err(fault),
                            Ok((s, None)) => Ok((s, ())),
                            Ok((s, Some(assigned))) => match emit(
                                s,
                                OperationView::Assign { destination: place, value: assigned },
                                statement.span,
                            ) {
                                Err(fault) => Err(fault),
                                Ok((s, _)) => Ok(
                                    (
                                        if direct {
                                            widened(s, root)
                                        } else {
                                            s
                                        },
                                        (),
                                    ),
                                ),
                            },
                        },
                    }
                },
            }
        },
        _ => Err("assignment target fact is missing"),
    }
}

/// The value that an assignment stores; a compound one reads the place first.
#[verifier::opaque]
pub open spec fn assigned_rule(
    c: Context,
    s: State,
    place: PlaceView,
    state: TypeState,
    operator: AssignmentOperator,
    operator_span: Span,
    value: &Expression,
    target: Span,
    span: Span,
) -> Outcome<Option<OperandView>>
    decreases value, 6int,
{
    if operator == AssignmentOperator::Assign {
        expression_rule(c, s, value)
    } else {
        match state {
            TypeState::Resolved(ty) => match temporary(c, s, ty) {
                Err(fault) => Err(fault),
                Ok((s, before)) => match emit(
                    s,
                    OperationView::Copy { destination: before, operand: OperandView::Copy(place) },
                    target,
                ) {
                    Err(fault) => Err(fault),
                    Ok((s, _)) => match operand_rule(c, s, value) {
                        Err(fault) => Err(fault),
                        Ok((s, None)) => Ok((s, None)),
                        Ok((s, Some(right))) => match compound_of(operator) {
                            Err(fault) => Err(fault),
                            Ok(operator) => always(
                                checked_binary(c, s, ty, operator, value_of(before), right, operator_span, span),
                            ),
                        },
                    },
                },
            },
            _ => Err("compound assignment target type is unresolved"),
        }
    }
}

/// A local declaration.
pub open spec fn local_rule(c: Context, s: State, name: Span, initializer: &Expression, span: Span) -> Outcome<()>
    decreases initializer, 5int,
{
    match introduced_from(c.analysis.bindings@, BindingNode::Local(span), 0) {
        None => Err("local declaration lacks a binding identity"),
        Some(binding) => match binding_state(c, binding) {
            TypeState::Never => match expression_rule(c, s, initializer) {
                Err(fault) => Err(fault),
                Ok((s, None)) => Ok((s, ())),
                Ok((_, Some(_))) => Err("never-typed local initializer did not diverge"),
            },
            TypeState::Resolved(ty) => match mapped(c, ty) {
                Err(fault) => Err(fault),
                Ok(ty) => {
                    let (s, local) = declare(s, ty, Some(text_at(c.analysis.source, name)), LocalOrigin::Binding);
                    match expression_rule(c, bind(s, binding, local), initializer) {
                        Err(fault) => Err(fault),
                        Ok((_, None)) => Err("value-typed local initializer diverged"),
                        Ok((s, Some(value))) => emit(
                            s,
                            OperationView::Assign { destination: whole(local), value },
                            span,
                        ),
                    }
                },
            },
            _ => Err("local binding has no resolved type"),
        },
    }
}

/// What a statement becomes.
pub open spec fn statement_rule(c: Context, s: State, statement: &Statement) -> Outcome<()>
    decreases statement, 1int,
{
    match flow_of(
        c,
        FlowSubject::Statement(statement.span),
        "statement does not have exactly one flow summary",
    ) {
        Err(fault) => Err(fault),
        Ok(expected) => {
            let done = match &statement.kind {
                StatementKind::Local { name, initializer, .. } => local_rule(
                    c,
                    s,
                    name.span,
                    initializer,
                    statement.span,
                ),
                StatementKind::Assignment { .. } => assignment_rule(c, s, statement),
                StatementKind::Expression(expression) => match expression_rule(c, s, expression) {
                    Err(fault) => Err(fault),
                    Ok((s, _)) => Ok((s, ())),
                },
                StatementKind::Return(value) => return_rule(c, s, value, statement.span),
                StatementKind::Break => control_rule(c, s, true, statement.span),
                StatementKind::Continue => control_rule(c, s, false, statement.span),
                StatementKind::If { .. } => if_rule(c, s, statement),
                StatementKind::While { .. } => while_rule(c, s, statement),
                StatementKind::For { .. } => for_rule(c, s, statement),
                StatementKind::Switch { .. } => switch_rule(c, s, statement),
                StatementKind::Block(block) => statement_block_rule(c, s, block),
            };
            match done {
                Err(fault) => Err(fault),
                Ok((s, _)) => if expected != (s.block is Some) {
                    Err("statement lowering contradicts its flow summary")
                } else {
                    Ok((s, ()))
                },
            }
        },
    }
}

} // verus!
