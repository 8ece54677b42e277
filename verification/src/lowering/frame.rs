//! That lowering only ever adds: code that control has left stays as it is.

use crate::analysis::{
    AccessPathStep, AlternativeView, BindingId, BindingNode, CallTarget, ConstructorKind, FunctionSignature,
    TypeId as SourceType, TypeState, UnionAlternative, injection_of, latest, payload_of, primitive_type,
    target_of,
};
use crate::ast::{
    Argument, ArgumentKind, AssignmentOperator, AssignmentTarget, AssignmentTargetSuffix,
    AssignmentTargetSuffixKind, BinaryOperator as SourceOperator, Block, ConditionalExpressionBranch,
    ConditionalStatementBranch, Expression, ExpressionBody, ExpressionBodyKind, ExpressionKind, MapEntry,
    PrimitiveType, Statement, StatementBody, StatementBodyKind, StatementKind, SwitchArm,
    UnaryOperator as SourceUnary,
};
use crate::ir::{
    BinaryOperator, BlockId, ConstantView, FailureOperation, IntegerOperation, LocalId, LocalOrigin,
    NumericConversion, OperandView, PlaceView, Projection, TypeId,
};
use crate::lowering::assembly::completed;
use crate::lowering::model::{
    AggregateView, BlockView, CheckView, Context, LoopView, Narrowing, OperationView, State, TerminatorView,
    declare, emit, entered, fail, finish, in_block, left, locate, mapped, open_block, seal, temporary, value_of,
    whole,
};
use crate::lowering::rules::{
    activated, aggregate, alternative_id, alternatives_of, arm_narrowed, attempted, attempted_from, behind,
    binary_of, bind, binding_state, called, checked_binary, cleaned, compound_of, constant, constructed,
    conversion_of, converted, copied, errored, exits_from, indexed, inject, injected, joined, local_of,
    materialized, merged, narrowed, negated, only, open_blocks, raw_type, restored, source_type, stabilized,
    struct_projection, succeeded, successes_count, targets_from, text_at, try_type, tuple_projection, widened,
    with_path,
};
use crate::lowering::translation::{
    Iteration, always, argument_rule, arguments_from, arm_rule, arms_from, assigned_rule, assignment_rule,
    authorized, block_rule, block_value_rule, branched, branches_from, call_rule, choice_rule, choices_from,
    closed_loop, condition_rule, control_rule, core_rule, dispatched, element_declared, elements_of, else_rule,
    entries_from, entry_rule, expression_body_rule, expression_rule, for_rule, if_expression_rule, if_rule,
    index_rule, iteration_begun, iteration_ended, iteration_entered, local_rule, loop_before, looping,
    message_rule, operand_rule, operands_from, panic_rule, place_rule, receiver_rule, rest_rule, result_rule,
    return_checked, return_rule, rooted, short_circuit_rule, statement_block_rule, statement_body_rule,
    statement_rule, statements_from, steps_from, stripped, suffix_from, suffix_rule, switch_rule, test_rule,
    unit_returned, while_rule,
};
use crate::semantic::{SwitchResolution, TryAction, TryResolution};
use crate::semantic::flow_rules::introduced_from;
use crate::source::Span;
use vstd::prelude::*;

verus! {

/// Whether one list of operations starts with another.
pub open spec fn longer<A>(before: Seq<A>, after: Seq<A>) -> bool {
    &&& before.len() <= after.len()
    &&& forall|i: int| 0 <= i < before.len() ==> before[i] == #[trigger] after[i]
}

/// Whether control is in the block with an index.
pub open spec fn at(block: Option<BlockId>, index: int) -> bool {
    block matches Some(block) && block.0 == index
}

/// Whether a block is there and has no end yet.
pub open spec fn unfinished(s: State, block: BlockId) -> bool {
    block.0 < s.blocks.len() && s.blocks[block.0 as int].terminator is None
}

/// Whether control, if it is anywhere, is in a block without an end.
pub open spec fn alive(s: State) -> bool {
    s.block matches Some(block) ==> unfinished(s, block)
}

/// Whether the blocks can be numbered.
pub open spec fn fits(s: State) -> bool {
    s.blocks.len() <= usize::MAX
}

/// Whether a step only adds operations to the current block.
#[verifier::opaque]
pub open spec fn flat(before: State, after: State) -> bool {
    &&& after.block == before.block
    &&& after.loops == before.loops
    &&& after.blocks.len() == before.blocks.len()
    &&& forall|b: int|
        0 <= b < before.blocks.len() ==> (#[trigger] after.blocks[b]).terminator == before.blocks[b].terminator
            && longer(before.blocks[b].operations, after.blocks[b].operations) && (!at(before.block, b)
            ==> after.blocks[b] == before.blocks[b])
}

/// Whether a step adds to the current block and adds blocks, and changes nothing else: control is then still in the
/// block that it was in, in one that is new, or nowhere.
#[verifier::opaque]
pub open spec fn goes(before: State, after: State) -> bool {
    &&& before.blocks.len() <= after.blocks.len()
    &&& fits(after) && alive(before) ==> {
        &&& alive(after)
        &&& after.loops == before.loops
        &&& after.block matches Some(block) ==> at(before.block, block.0 as int) || block.0 >= before.blocks.len()
        &&& forall|b: int|
            0 <= b < before.blocks.len() ==> longer(
                before.blocks[b].operations,
                (#[trigger] after.blocks[b]).operations,
            ) && (!at(before.block, b) ==> after.blocks[b] == before.blocks[b])
    }
}

proof fn lemma_goes_through(before: State, middle: State, after: State)
    requires
        goes(before, middle),
        goes(middle, after),
    ensures
        goes(before, after),
{
    reveal(goes);
    if fits(after) && alive(before) {
        assert forall|b: int| 0 <= b < before.blocks.len() implies longer(
            before.blocks[b].operations,
            (#[trigger] after.blocks[b]).operations,
        ) && (!at(before.block, b) ==> after.blocks[b] == before.blocks[b]) by {
            assert(longer(before.blocks[b].operations, middle.blocks[b].operations));
            assert(longer(middle.blocks[b].operations, after.blocks[b].operations));
        }
    }
}

proof fn lemma_flat_through(before: State, middle: State, after: State)
    requires
        flat(before, middle),
        flat(middle, after),
    ensures
        flat(before, after),
{
    reveal(flat);
    assert forall|b: int| 0 <= b < before.blocks.len() implies (#[trigger] after.blocks[b]).terminator
        == before.blocks[b].terminator && longer(before.blocks[b].operations, after.blocks[b].operations) && (!at(
        before.block,
        b,
    ) ==> after.blocks[b] == before.blocks[b]) by {
        assert(longer(before.blocks[b].operations, middle.blocks[b].operations));
    }
}

pub proof fn lemma_flat_goes(before: State, after: State)
    requires
        flat(before, after),
    ensures
        goes(before, after),
{
    reveal(flat);
    reveal(goes);
    if let Some(block) = before.block {
        if block.0 < before.blocks.len() {
            assert(after.blocks[block.0 as int].terminator == before.blocks[block.0 as int].terminator);
        }
    }
}

/// Steps can be put behind each other.
pub proof fn lemma_steps()
    ensures
        forall|s: State| #[trigger] goes(s, s),
        forall|s: State| #[trigger] flat(s, s),
        forall|a: State, b: State| #[trigger] flat(a, b) ==> goes(a, b),
        forall|a: State, b: State, c: State| #[trigger] flat(a, b) && #[trigger] flat(b, c) ==> flat(a, c),
        forall|a: State, b: State, c: State| #[trigger] goes(a, b) && #[trigger] goes(b, c) ==> goes(a, c),
{
    assert forall|s: State| #[trigger] flat(s, s) by {
        reveal(flat);
    }
    assert forall|s: State| #[trigger] goes(s, s) by {
        reveal(goes);
    }
    assert forall|a: State, b: State| #[trigger] flat(a, b) implies goes(a, b) by {
        lemma_flat_goes(a, b);
    }
    assert forall|a: State, b: State, c: State| #[trigger] flat(a, b) && #[trigger] flat(b, c) implies flat(a, c) by {
        lemma_flat_through(a, b, c);
    }
    assert forall|a: State, b: State, c: State| #[trigger] goes(a, b) && #[trigger] goes(b, c) implies goes(a, c) by {
        lemma_goes_through(a, b, c);
    }
}

proof fn lemma_located(s: State, span: Span)
    ensures
        locate(s, span).0 == (State { locations: locate(s, span).0.locations, ..s }),
{
    reveal(locate);
}

pub proof fn lemma_emit(s: State, operation: OperationView, span: Span)
    ensures
        emit(s, operation, span) matches Ok((after, _)) ==> flat(s, after) && in_block(s) && after.blocks[(
        s.block->0).0 as int].operations.len() == s.blocks[(s.block->0).0 as int].operations.len() + 1
            && after.blocks[(s.block->0).0 as int].operations.last().0 == operation,
{
    reveal(emit);
    reveal(flat);
    lemma_located(s, span);
}

/// What sealing a block comes to.
pub proof fn lemma_seal(s: State, block: BlockId, terminator: TerminatorView, span: Span)
    requires
        block.0 < s.blocks.len(),
    ensures
        ({
            let after = seal(s, block, terminator, span);
            &&& after.block == s.block
            &&& after.loops == s.loops
            &&& after.narrowings == s.narrowings
            &&& after.tests == s.tests
            &&& after.blocks == s.blocks.update(
                block.0 as int,
                BlockView {
                    operations: s.blocks[block.0 as int].operations,
                    terminator: after.blocks[block.0 as int].terminator,
                },
            )
            &&& after.blocks[block.0 as int].terminator matches Some((end, _)) && end == terminator
        }),
{
    reveal(seal);
    lemma_located(s, span);
}

/// What the end of the current block comes to.
pub proof fn lemma_finish(s: State, terminator: TerminatorView, span: Span)
    ensures
        finish(s, terminator, span) matches Ok((after, _)) ==> {
            &&& in_block(s)
            &&& after.block is None
            &&& after.loops == s.loops
            &&& after.narrowings == s.narrowings
            &&& after.tests == s.tests
            &&& after.blocks == s.blocks.update(
                (s.block->0).0 as int,
                BlockView {
                    operations: s.blocks[(s.block->0).0 as int].operations,
                    terminator: after.blocks[(s.block->0).0 as int].terminator,
                },
            )
            &&& after.blocks[(s.block->0).0 as int].terminator matches Some((end, _)) && end == terminator
            &&& goes(s, after)
        },
{
    reveal(finish);
    reveal(goes);
    lemma_located(s, span);
    if in_block(s) {
        lemma_seal(s, s.block->0, terminator, span);
    }
}

/// What a new block comes to.
pub proof fn lemma_open(s: State)
    ensures
        open_block(s).0 == (State {
            blocks: s.blocks.push(BlockView { operations: seq![], terminator: None }),
            ..s
        }),
        open_block(s).1 == BlockId(s.blocks.len() as usize),
        goes(s, open_block(s).0),
{
    reveal(open_block);
    reveal(goes);
}

/// The steps that only add operations to the current block.
pub proof fn lemma_leaves(c: Context)
    ensures
        forall|s: State, operation: OperationView, span: Span|
            (#[trigger] emit(s, operation, span)) matches Ok((after, _)) ==> flat(s, after),
        forall|s: State, ty: SourceType| (#[trigger] temporary(c, s, ty)) matches Ok((after, _)) ==> flat(s, after),
        forall|s: State, span: Span, operation: FailureOperation|
            (#[trigger] fail(c, s, span, operation)) matches Ok((after, _)) ==> flat(s, after),
        forall|s: State, ty: TypeId, name: Option<Seq<char>>, origin: LocalOrigin|
            flat(s, (#[trigger] declare(s, ty, name, origin)).0),
        forall|s: State, binding: BindingId, local: LocalId| flat(s, #[trigger] bind(s, binding, local)),
        forall|s: State, binding: BindingId| flat(s, #[trigger] widened(s, binding)),
        forall|s: State, narrowing: Narrowing| flat(s, #[trigger] narrowed(s, narrowing)),
        forall|s: State, narrowings: Seq<Narrowing>| flat(s, #[trigger] restored(s, narrowings)),
{
    assert forall|s: State, operation: OperationView, span: Span|
        (#[trigger] emit(s, operation, span)) matches Ok((after, _)) ==> flat(s, after) by {
        lemma_emit(s, operation, span);
    }
    assert forall|s: State, ty: SourceType| (#[trigger] temporary(c, s, ty)) matches Ok((after, _)) ==> flat(s, after) by {
        reveal(temporary);
        reveal(declare);
        reveal(flat);
    }
    assert forall|s: State, span: Span, operation: FailureOperation|
        (#[trigger] fail(c, s, span, operation)) matches Ok((after, _)) ==> flat(s, after) by {
        reveal(fail);
        reveal(flat);
        lemma_located(s, span);
    }
    assert forall|s: State, ty: TypeId, name: Option<Seq<char>>, origin: LocalOrigin|
        flat(s, (#[trigger] declare(s, ty, name, origin)).0) by {
        reveal(declare);
        reveal(flat);
    }
    assert forall|s: State, binding: BindingId, local: LocalId| flat(s, #[trigger] bind(s, binding, local)) by {
        reveal(bind);
        reveal(flat);
    }
    assert forall|s: State, binding: BindingId| flat(s, #[trigger] widened(s, binding)) by {
        reveal(widened);
        reveal(flat);
    }
    assert forall|s: State, narrowing: Narrowing| flat(s, #[trigger] narrowed(s, narrowing)) by {
        reveal(widened);
        reveal(narrowed);
        reveal(flat);
    }
    assert forall|s: State, narrowings: Seq<Narrowing>| flat(s, #[trigger] restored(s, narrowings)) by {
        reveal(flat);
    }
}

pub proof fn flat_aggregate(c: Context, s: State, expression: Span, it: AggregateView)
    ensures
        aggregate(c, s, expression, it) matches Ok((after, _)) ==> flat(s, after),
{
    reveal(aggregate);
    lemma_steps();
    lemma_leaves(c);
}

proof fn flat_aggregates(c: Context)
    ensures
        forall|s: State, expression: Span, it: AggregateView|
            (#[trigger] aggregate(c, s, expression, it)) matches Ok((after, _)) ==> flat(s, after),
{
    assert forall|s: State, expression: Span, it: AggregateView|
        (#[trigger] aggregate(c, s, expression, it)) matches Ok((after, _)) ==> flat(s, after) by {
        flat_aggregate(c, s, expression, it);
    }
}

pub proof fn flat_copied(c: Context, s: State, operand: OperandView, span: Span)
    ensures
        copied(c, s, operand, span) matches Ok((after, _)) ==> flat(s, after),
{
    reveal(copied);
    lemma_steps();
    lemma_leaves(c);
}

pub proof fn flat_stabilized(c: Context, s: State, operand: OperandView, span: Span)
    ensures
        stabilized(c, s, operand, span) matches Ok((after, _)) ==> flat(s, after),
{
    reveal(stabilized);
    lemma_steps();
    lemma_leaves(c);
    flat_copied(c, s, operand, span);
}

pub proof fn flat_materialized(c: Context, s: State, operand: OperandView, span: Span)
    ensures
        materialized(c, s, operand, span) matches Ok((after, _)) ==> flat(s, after),
{
    reveal(materialized);
    lemma_steps();
    lemma_leaves(c);
    flat_copied(c, s, operand, span);
}

pub proof fn flat_checked_binary(
    c: Context,
    s: State,
    result: SourceType,
    operator: BinaryOperator,
    l: OperandView,
    r: OperandView,
    failure: Span,
    span: Span,
)
    ensures
        checked_binary(c, s, result, operator, l, r, failure, span) matches Ok((after, _)) ==> flat(s, after),
{
    reveal(checked_binary);
    lemma_steps();
    lemma_leaves(c);
}

pub proof fn flat_inject(
    c: Context,
    s: State,
    payload: OperandView,
    union: SourceType,
    alternative: AlternativeView,
    span: Span,
)
    ensures
        inject(c, s, payload, union, alternative, span) matches Ok((after, _)) ==> flat(s, after),
{
    reveal(inject);
    lemma_steps();
    lemma_leaves(c);
}

proof fn flat_injects(c: Context)
    ensures
        forall|s: State, payload: OperandView, union: SourceType, alternative: AlternativeView, span: Span|
            (#[trigger] inject(c, s, payload, union, alternative, span)) matches Ok((after, _)) ==> flat(s, after),
{
    assert forall|s: State, payload: OperandView, union: SourceType, alternative: AlternativeView, span: Span|
        (#[trigger] inject(c, s, payload, union, alternative, span)) matches Ok((after, _)) ==> flat(s, after) by {
        flat_inject(c, s, payload, union, alternative, span);
    }
}

pub proof fn flat_injected(c: Context, s: State, expression: Span, value: Option<OperandView>)
    ensures
        injected(c, s, expression, value) matches Ok((after, _)) ==> flat(s, after),
{
    reveal(injected);
    lemma_steps();
    lemma_leaves(c);
    if let Some(value) = value {
        if let Some((union, alternative)) = injection_of(c.analysis, expression) {
            flat_inject(c, s, value, union, alternative, expression);
        }
    }
}

pub proof fn flat_activated(c: Context, s: State, condition: Span, span: Span)
    ensures
        activated(c, s, condition, span) matches Ok((after, _)) ==> flat(s, after),
{
    reveal(activated);
    lemma_steps();
    lemma_leaves(c);
}

pub proof fn flat_indexed(c: Context, s: State, receiver: OperandView, index: OperandView, expression: Span, span: Span)
    ensures
        indexed(c, s, receiver, index, expression, span) matches Ok((after, _)) ==> flat(s, after),
{
    reveal(indexed);
    lemma_steps();
    lemma_leaves(c);
}

pub proof fn flat_converted(
    c: Context,
    s: State,
    operand: OperandView,
    conversion: NumericConversion,
    destination: SourceType,
    span: Span,
)
    ensures
        converted(c, s, operand, conversion, destination, span) matches Ok((after, _)) ==> flat(s, after),
{
    reveal(converted);
    lemma_steps();
    lemma_leaves(c);
    flat_stabilized(c, s, operand, span);
}

pub proof fn flat_negated(
    c: Context,
    s: State,
    operand: OperandView,
    operator: SourceUnary,
    operand_span: Span,
    operator_span: Span,
    expression: Span,
)
    ensures
        negated(c, s, operand, operator, operand_span, operator_span, expression) matches Ok((after, _)) ==> flat(
            s,
            after,
        ),
{
    reveal(negated);
    lemma_steps();
    lemma_leaves(c);
    flat_stabilized(c, s, operand, operand_span);
}

pub proof fn flat_called(
    c: Context,
    s: State,
    expression: Span,
    target: CallTarget,
    receiver: Option<OperandView>,
    arguments: Seq<OperandView>,
)
    ensures
        called(c, s, expression, target, receiver, arguments) matches Ok((after, _)) ==> flat(s, after),
{
    reveal(called);
    lemma_steps();
    lemma_leaves(c);
}

pub proof fn flat_constructed(c: Context, s: State, expression: Span, kind: ConstructorKind, values: Seq<OperandView>)
    ensures
        constructed(c, s, expression, kind, values) matches Ok((after, _)) ==> flat(s, after),
{
    reveal(constructed);
    lemma_steps();
    lemma_leaves(c);
    flat_aggregates(c);
    flat_injects(c);
}

pub proof fn flat_arm_narrowed(
    c: Context,
    s: State,
    switch: SwitchResolution,
    union: OperandView,
    index: int,
    span: Span,
)
    ensures
        arm_narrowed(c, s, switch, union, index, span) matches Ok((after, _)) ==> flat(s, after),
{
    reveal(arm_narrowed);
    lemma_steps();
    lemma_leaves(c);
}

pub proof fn flat_succeeded(
    c: Context,
    s: State,
    r: TryResolution,
    alternative: AlternativeView,
    payload: OperandView,
    result: LocalId,
    single: bool,
)
    ensures
        succeeded(c, s, r, alternative, payload, result, single) matches Ok((after, _)) ==> flat(s, after),
{
    reveal(succeeded);
    lemma_steps();
    lemma_leaves(c);
    flat_injects(c);
}

pub proof fn flat_unit_returned(c: Context, s: State, record: int, span: Span)
    ensures
        unit_returned(c, s, record, span) matches Ok((after, _)) ==> flat(s, after),
{
    reveal(unit_returned);
    lemma_steps();
    lemma_leaves(c);
    flat_injects(c);
}

pub proof fn flat_element_declared(c: Context, s: State, name: Span, span: Span)
    ensures
        element_declared(c, s, name, span) matches Ok((after, _)) ==> flat(s, after),
{
    reveal(element_declared);
    lemma_steps();
    lemma_leaves(c);
}

pub proof fn flat_rooted(c: Context, s: State, root: BindingId, direct: bool, span: Span)
    ensures
        rooted(c, s, root, direct, span) matches Ok((after, _)) ==> flat(s, after),
{
    reveal(rooted);
    lemma_steps();
    lemma_leaves(c);
    if let Some(local) = local_of(s, root, None) {
        flat_stabilized(c, s, value_of(local), span);
    }
}

pub proof fn flat_completed(c: Context, s: State, signature: FunctionSignature)
    ensures
        completed(c, s, signature) matches Ok((after, _)) ==> flat(s, after),
{
    reveal(completed);
    lemma_steps();
    lemma_leaves(c);
    flat_injects(c);
}

pub proof fn flat_cleaned(c: Context, s: State, loops: Seq<LoopView>, count: int, span: Span)
    ensures
        cleaned(s, loops, count, span) matches Ok((after, _)) ==> flat(s, after),
    decreases count,
{
    lemma_steps();
    lemma_leaves(c);
    if count > 0 {
        match loops[count - 1].cleanup {
            None => flat_cleaned(c, s, loops, count - 1, span),
            Some(iterable) => {
                if let Ok((next, _)) = emit(s, OperationView::EndIteration { iterable }, span) {
                    flat_cleaned(c, next, loops, count - 1, span);
                }
            },
        }
    }
}

pub proof fn goes_errored(c: Context, s: State, r: TryResolution, alternative: AlternativeView, payload: OperandView)
    ensures
        errored(c, s, r, alternative, payload) matches Ok((after, _)) ==> goes(s, after) && after.block is None,
{
    reveal(errored);
    lemma_steps();
    lemma_leaves(c);
    flat_injects(c);
    match r.action {
        TryAction::Propagate { destination_union, destination_error, .. } => {
            if let Ok((s1, returned)) = inject(
                c,
                s,
                payload,
                destination_union,
                destination_error@,
                r.operator_span,
            ) {
                flat_cleaned(c, s1, s1.loops, s1.loops.len() as int, r.operator_span);
                if let Ok((s2, _)) = cleaned(s1, s1.loops, s1.loops.len() as int, r.operator_span) {
                    lemma_finish(s2, TerminatorView::Return(returned), r.operator_span);
                }
            }
        },
        TryAction::Panic { .. } => {
            if let Ok((s1, failure)) = fail(c, s, r.operator_span, FailureOperation::UnhandledError) {
                lemma_finish(s1, TerminatorView::ErrorPanic { payload, failure }, r.operator_span);
            }
        },
    }
}

pub proof fn lemma_alike(a: State, b: State)
    requires
        a.blocks == b.blocks,
        a.block == b.block,
        a.loops == b.loops,
    ensures
        flat(a, b),
{
    reveal(flat);
}

/// Control that goes to a block which is waiting for it.
pub proof fn lemma_enter(base: State, s: State, block: BlockId)
    requires
        goes(base, s),
        fits(s) && alive(base) ==> unfinished(s, block) && block.0 >= base.blocks.len(),
    ensures
        goes(base, entered(s, block)),
{
    reveal(goes);
}

pub proof fn lemma_leave(base: State, s: State)
    requires
        goes(base, s),
    ensures
        goes(base, left(s)),
{
    reveal(goes);
}

/// Whether paths end in blocks without an end, each of them new or the one that control was in.
pub open spec fn parked(base: State, s: State, paths: Seq<(BlockId, Span)>) -> bool {
    forall|i: int|
        0 <= i < paths.len() ==> unfinished(s, (#[trigger] paths[i]).0) && (at(base.block, paths[i].0.0 as int)
            || paths[i].0.0 >= base.blocks.len())
}

/// Whether control is in none of the blocks that paths end in.
pub open spec fn beside(s: State, paths: Seq<(BlockId, Span)>) -> bool {
    forall|i: int| 0 <= i < paths.len() ==> !at(s.block, (#[trigger] paths[i]).0.0 as int)
}

pub proof fn lemma_parked(base: State, s: State, after: State, paths: Seq<(BlockId, Span)>)
    requires
        goes(base, s),
        goes(s, after),
        alive(base),
        fits(after),
        parked(base, s, paths),
        beside(s, paths),
    ensures
        parked(base, after, paths),
        beside(after, paths),
{
    reveal(goes);
    assert forall|i: int| 0 <= i < paths.len() implies unfinished(after, (#[trigger] paths[i]).0) && (at(
        base.block,
        paths[i].0.0 as int,
    ) || paths[i].0.0 >= base.blocks.len()) && !at(after.block, paths[i].0.0 as int) by {
        assert(after.blocks[paths[i].0.0 as int] == s.blocks[paths[i].0.0 as int]);
    }
}

pub proof fn lemma_pushed(base: State, s: State, paths: Seq<(BlockId, Span)>, span: Span)
    requires
        goes(base, s),
        alive(base),
        fits(s),
        parked(base, s, paths),
    ensures
        parked(base, s, with_path(paths, s, span)),
{
    reveal(goes);
    if let Some(block) = s.block {
        let more = with_path(paths, s, span);
        assert forall|i: int| 0 <= i < more.len() implies unfinished(s, (#[trigger] more[i]).0) && (at(
            base.block,
            more[i].0.0 as int,
        ) || more[i].0.0 >= base.blocks.len()) by {
            if i < paths.len() {
                assert(more[i] == paths[i]);
            }
        }
    }
}

/// Whether a path from one on ends in a block.
pub open spec fn ends_in(paths: Seq<(BlockId, Span)>, from: int, block: int) -> bool {
    exists|i: int| from <= i < paths.len() && (#[trigger] paths[i]).0.0 == block
}

/// Whether a block ends in a given way.
pub open spec fn ends_with(blocks: Seq<BlockView>, block: BlockId, end: TerminatorView) -> bool {
    block.0 < blocks.len() && (blocks[block.0 as int].terminator matches Some((kind, _)) && kind == end)
}

pub proof fn lemma_joined(s: State, paths: Seq<(BlockId, Span)>, merge: BlockId, from: int)
    requires
        0 <= from <= paths.len(),
    ensures
        ({
            let after = joined(s, paths, merge, from);
            &&& after.block == s.block
            &&& after.loops == s.loops
            &&& after.blocks.len() == s.blocks.len()
            &&& forall|b: int|
                0 <= b < s.blocks.len() ==> (#[trigger] after.blocks[b]).operations == s.blocks[b].operations && (!ends_in(
                    paths,
                    from,
                    b,
                ) ==> after.blocks[b] == s.blocks[b])
            &&& forall|i: int|
                from <= i < paths.len() && (#[trigger] paths[i]).0.0 < s.blocks.len() ==> ends_with(
                    after.blocks,
                    paths[i].0,
                    TerminatorView::Jump(merge),
                )
        }),
    decreases paths.len() - from,
{
    if from < paths.len() {
        let next = seal(s, paths[from].0, TerminatorView::Jump(merge), paths[from].1);
        if paths[from].0.0 < s.blocks.len() {
            lemma_seal(s, paths[from].0, TerminatorView::Jump(merge), paths[from].1);
        } else {
            reveal(seal);
            lemma_located(s, paths[from].1);
        }
        lemma_joined(next, paths, merge, from + 1);
        let after = joined(s, paths, merge, from);
        assert(after == joined(next, paths, merge, from + 1));
        assert forall|b: int| 0 <= b < s.blocks.len() implies (#[trigger] after.blocks[b]).operations
            == s.blocks[b].operations && (!ends_in(paths, from, b) ==> after.blocks[b] == s.blocks[b]) by {
            if !ends_in(paths, from, b) {
                assert(paths[from].0.0 != b);
                assert(!ends_in(paths, from + 1, b));
            }
        }
        assert forall|i: int| from <= i < paths.len() && (#[trigger] paths[i]).0.0 < s.blocks.len() implies ends_with(
            after.blocks,
            paths[i].0,
            TerminatorView::Jump(merge),
        ) by {
            if i == from && !ends_in(paths, from + 1, paths[i].0.0 as int) {
                assert(after.blocks[paths[i].0.0 as int] == next.blocks[paths[i].0.0 as int]);
            } else if i == from {
                let k = choose|k: int| from + 1 <= k < paths.len() && (#[trigger] paths[k]).0.0 == paths[i].0.0;
                assert(ends_with(after.blocks, paths[k].0, TerminatorView::Jump(merge)));
            }
        }
    }
}

/// Paths that meet: each of them goes on in a new block, where control then is.
pub proof fn lemma_merged(base: State, s: State, paths: Seq<(BlockId, Span)>)
    requires
        goes(base, s),
        fits(s) && alive(base) ==> parked(base, s, paths),
    ensures
        goes(base, merged(s, paths).0),
        merged(s, paths).1 == (paths.len() > 0),
        merged(s, paths).0.block is Some == (paths.len() > 0),
        fits(merged(s, paths).0) && alive(base) ==> {
            let after = merged(s, paths).0;
            &&& forall|i: int|
                0 <= i < paths.len() ==> ends_with(
                    after.blocks,
                    (#[trigger] paths[i]).0,
                    TerminatorView::Jump(after.block->0),
                )
            &&& forall|b: int|
                0 <= b < s.blocks.len() && !ends_in(paths, 0, b) ==> #[trigger] after.blocks[b] == s.blocks[b]
            &&& forall|b: int|
                0 <= b < s.blocks.len() ==> (#[trigger] after.blocks[b]).operations == s.blocks[b].operations
            &&& s.blocks.len() <= after.blocks.len()
        },
{
    reveal(merged);
    if paths.len() == 0 {
        lemma_leave(base, s);
    } else {
        lemma_open(s);
        let (s1, merge) = open_block(s);
        lemma_joined(s1, paths, merge, 0);
        let s2 = joined(s1, paths, merge, 0);
        let after = entered(s2, merge);
        assert(after == merged(s, paths).0);
        reveal(goes);
        if fits(after) && alive(base) {
            assert(merge.0 == s.blocks.len());
            assert forall|b: int| 0 <= b < s.blocks.len() && !ends_in(paths, 0, b) implies #[trigger] after.blocks[b]
                == s.blocks[b] by {
                assert(s2.blocks[b] == s1.blocks[b]);
            }
            assert forall|b: int| 0 <= b < s.blocks.len() implies (#[trigger] after.blocks[b]).operations
                == s.blocks[b].operations by {
                assert(s2.blocks[b].operations == s1.blocks[b].operations);
            }
            assert(!ends_in(paths, 0, merge.0 as int));
            assert(s2.blocks[merge.0 as int] == s1.blocks[merge.0 as int]);
            assert forall|b: int| 0 <= b < base.blocks.len() implies longer(
                base.blocks[b].operations,
                (#[trigger] after.blocks[b]).operations,
            ) && (!at(base.block, b) ==> after.blocks[b] == base.blocks[b]) by {
                assert(longer(base.blocks[b].operations, s.blocks[b].operations));
                assert(after.blocks[b].operations == s.blocks[b].operations);
                if !at(base.block, b) {
                    assert(!ends_in(paths, 0, b));
                }
            }
            assert forall|i: int| 0 <= i < paths.len() implies ends_with(
                after.blocks,
                (#[trigger] paths[i]).0,
                TerminatorView::Jump(after.block->0),
            ) by {
                assert(unfinished(s, paths[i].0));
            }
        }
    }
}

/// Whether control has come to a fork: the block that it was in ends by it, one new block is where it goes on, and
/// another waits for when the condition does not hold.
pub open spec fn forked(s: State, after: State, decision: BlockId, condition: OperandView, other: BlockId) -> bool {
    &&& after.block == Some(BlockId(s.blocks.len() as usize))
    &&& after.blocks.len() == s.blocks.len() + 2
    &&& other.0 == s.blocks.len() + 1
    &&& after.loops == s.loops
    &&& alive(after)
    &&& after.blocks[other.0 as int] == BlockView { operations: seq![], terminator: None }
    &&& ends_with(
        after.blocks,
        decision,
        TerminatorView::Branch { condition, then_block: after.block->0, else_block: other },
    )
    &&& after.blocks[decision.0 as int].operations == s.blocks[decision.0 as int].operations
    &&& forall|b: int| 0 <= b < s.blocks.len() && b != decision.0 ==> #[trigger] after.blocks[b] == s.blocks[b]
}

pub proof fn lemma_branched(
    c: Context,
    s: State,
    decision: BlockId,
    condition: OperandView,
    tested: Span,
    condition_span: Span,
    body_span: Span,
)
    ensures
        branched(c, s, decision, condition, tested, condition_span, body_span) matches Ok((after, other)) ==> {
            &&& after.blocks.len() == s.blocks.len() + 2
            &&& fits(after) && unfinished(s, decision) ==> forked(s, after, decision, condition, other)
        },
{
    lemma_open(s);
    let (s1, body_block) = open_block(s);
    lemma_open(s1);
    let (s2, false_block) = open_block(s1);
    let end = TerminatorView::Branch { condition, then_block: body_block, else_block: false_block };
    let s3 = seal(s2, decision, end, condition_span);
    if decision.0 < s2.blocks.len() {
        lemma_seal(s2, decision, end, condition_span);
    } else {
        reveal(seal);
        lemma_located(s2, condition_span);
    }
    flat_activated(c, entered(s3, body_block), tested, body_span);
    reveal(flat);
    if let Ok((after, other)) = branched(c, s, decision, condition, tested, condition_span, body_span) {
        if fits(after) && unfinished(s, decision) {
            assert(after.blocks[other.0 as int] == s3.blocks[other.0 as int]);
            assert(after.blocks[decision.0 as int] == s3.blocks[decision.0 as int]);
            assert(after.blocks[body_block.0 as int].terminator == s3.blocks[body_block.0 as int].terminator);
            assert forall|b: int| 0 <= b < s.blocks.len() && b != decision.0 implies #[trigger] after.blocks[b]
                == s.blocks[b] by {
                assert(s3.blocks[b] == s2.blocks[b]);
            }
        }
    }
}

/// What comes of a fork once the body behind its condition is lowered.
pub proof fn lemma_fork_done(s: State, tested: State, condition: OperandView, body: State, other: BlockId, after: State)
    requires
        goes(s, tested),
        tested.block is Some,
        body.blocks.len() == tested.blocks.len() + 2,
        fits(body) && unfinished(tested, tested.block->0) ==> forked(tested, body, tested.block->0, condition, other),
        goes(body, after),
    ensures
        goes(s, after),
        goes(s, entered(after, other)),
        fits(after) && alive(s) ==> {
            &&& other.0 >= s.blocks.len()
            &&& !at(after.block, other.0 as int)
            &&& after.blocks[other.0 as int] == BlockView { operations: seq![], terminator: None }
            &&& body.block is Some
            &&& body.block->0 != other
            &&& (body.block->0).0 >= tested.blocks.len()
            &&& ends_with(
                after.blocks,
                tested.block->0,
                TerminatorView::Branch { condition, then_block: body.block->0, else_block: other },
            )
        },
{
    reveal(goes);
    if fits(after) && alive(s) {
        let d = tested.block->0;
        assert(unfinished(tested, d));
        assert(forked(tested, body, d, condition, other));
        assert(after.blocks[other.0 as int] == body.blocks[other.0 as int]);
        assert(after.blocks[d.0 as int] == body.blocks[d.0 as int]);
        assert forall|b: int| 0 <= b < s.blocks.len() implies longer(
            s.blocks[b].operations,
            (#[trigger] after.blocks[b]).operations,
        ) && (!at(s.block, b) ==> after.blocks[b] == s.blocks[b]) by {
            assert(longer(s.blocks[b].operations, tested.blocks[b].operations));
            assert(after.blocks[b] == body.blocks[b]);
            if b != d.0 {
                assert(body.blocks[b] == tested.blocks[b]);
            }
        }
    }
}

pub proof fn lemma_open_blocks(s: State, count: int)
    requires
        count >= 0,
    ensures
        ({
            let (after, blocks) = open_blocks(s, count);
            &&& after == (State { blocks: after.blocks, ..s })
            &&& after.blocks.len() == s.blocks.len() + count
            &&& blocks.len() == count
            &&& forall|b: int| 0 <= b < s.blocks.len() ==> #[trigger] after.blocks[b] == s.blocks[b]
            &&& forall|b: int|
                s.blocks.len() <= b < after.blocks.len() ==> #[trigger] after.blocks[b] == (BlockView {
                    operations: seq![],
                    terminator: None,
                })
            &&& fits(after) ==> forall|j: int| 0 <= j < count ==> (#[trigger] blocks[j]).0 == s.blocks.len() + j
        }),
    decreases count,
{
    if count > 0 {
        lemma_open_blocks(s, count - 1);
        lemma_open(open_blocks(s, count - 1).0);
    }
}

/// Whether blocks from one on wait for control: they are new, different, and have no end yet.
pub open spec fn waiting(base: State, s: State, blocks: Seq<BlockId>, from: int) -> bool {
    &&& forall|j: int|
        from <= j < blocks.len() ==> unfinished(s, #[trigger] blocks[j]) && blocks[j].0 >= base.blocks.len()
    &&& forall|i: int, j: int| 0 <= i < j < blocks.len() ==> (#[trigger] blocks[i]).0 != (#[trigger] blocks[j]).0
}

/// Whether no path ends in a block that waits.
pub open spec fn clear(paths: Seq<(BlockId, Span)>, blocks: Seq<BlockId>, from: int) -> bool {
    forall|i: int, j: int|
        0 <= i < paths.len() && from <= j < blocks.len() ==> (#[trigger] paths[i]).0.0 != (#[trigger] blocks[j]).0
}

/// One of several ways that waited: control has entered it, gone on, and left.
pub proof fn lemma_way(
    base: State,
    s: State,
    blocks: Seq<BlockId>,
    index: int,
    start: State,
    end: State,
    paths: Seq<(BlockId, Span)>,
    span: Span,
)
    requires
        0 <= index < blocks.len(),
        goes(base, s),
        start.blocks == s.blocks,
        start.loops == s.loops,
        start.block == Some(blocks[index]),
        goes(start, end),
        fits(s) && alive(base) ==> parked(base, s, paths) && waiting(base, s, blocks, index) && clear(
            paths,
            blocks,
            index,
        ),
    ensures
        goes(base, start),
        goes(base, end),
        goes(base, left(end)),
        fits(end) && alive(base) ==> {
            &&& parked(base, end, with_path(paths, end, span))
            &&& waiting(base, end, blocks, index + 1)
            &&& clear(with_path(paths, end, span), blocks, index + 1)
            &&& forall|j: int| index < j < blocks.len() ==> !at(end.block, (#[trigger] blocks[j]).0 as int)
                && end.blocks[blocks[j].0 as int] == s.blocks[blocks[j].0 as int]
        },
{
    lemma_steps();
    lemma_enter(base, s, blocks[index]);
    lemma_alike(entered(s, blocks[index]), start);
    lemma_leave(base, end);
    assert(start.blocks.len() <= end.blocks.len()) by {
        reveal(goes);
    }
    if fits(end) && alive(base) {
        assert(beside(start, paths));
        assert(parked(base, start, paths));
        lemma_parked(base, start, end, paths);
        lemma_pushed(base, end, paths, span);
        reveal(goes);
        assert(alive(start));
        let more = with_path(paths, end, span);
        assert forall|j: int| index < j < blocks.len() implies !at(end.block, (#[trigger] blocks[j]).0 as int)
            && end.blocks[blocks[j].0 as int] == s.blocks[blocks[j].0 as int] && unfinished(end, blocks[j]) by {
            assert(unfinished(s, blocks[j]));
            assert(blocks[index].0 != blocks[j].0);
        }
        assert forall|j: int| index + 1 <= j < blocks.len() implies unfinished(end, #[trigger] blocks[j])
            && blocks[j].0 >= base.blocks.len() by {}
        assert forall|i: int, j: int| 0 <= i < more.len() && index + 1 <= j < blocks.len() implies (
        #[trigger] more[i]).0.0 != (#[trigger] blocks[j]).0 by {
            if i < paths.len() {
                assert(more[i] == paths[i]);
            }
        }
    }
}

pub proof fn lemma_closed_loop(s: State, narrowings: Seq<Narrowing>, next: BlockId, span: Span)
    ensures
        closed_loop(s, narrowings, next, span) matches Ok((after, _)) ==> {
            &&& after.block is None
            &&& after.blocks.len() == s.blocks.len()
            &&& after.loops == if s.loops.len() > 0 {
                s.loops.drop_last()
            } else {
                s.loops
            }
            &&& forall|b: int|
                0 <= b < s.blocks.len() ==> (#[trigger] after.blocks[b]).operations == s.blocks[b].operations && (!at(
                    s.block,
                    b,
                ) ==> after.blocks[b] == s.blocks[b])
            &&& s.block matches Some(block) ==> ends_with(after.blocks, block, TerminatorView::Jump(next))
        },
{
    reveal(closed_loop);
    let popped = State {
        loops: if s.loops.len() > 0 {
            s.loops.drop_last()
        } else {
            s.loops
        },
        narrowings,
        ..s
    };
    lemma_finish(popped, TerminatorView::Jump(next), span);
}

pub proof fn go_expression(c: Context, s: State, e: &Expression)
    ensures
        expression_rule(c, s, e) matches Ok((after, value)) ==> goes(s, after) && value is Some == after.block is Some,
    decreases e, 4int,
{
    lemma_steps();
    go_core(c, s, e);
    if let Ok((s1, value)) = core_rule(c, s, e) {
        flat_injected(c, s1, e.span, value);
    }
}

#[verifier::rlimit(60)]
proof fn go_core(c: Context, s: State, e: &Expression)
    ensures
        core_rule(c, s, e) matches Ok((after, value)) ==> goes(s, after),
    decreases e, 3int,
{
    lemma_steps();
    match &e.kind {
        ExpressionKind::Parenthesized(inner) => go_expression(c, s, inner),
        ExpressionKind::Conversion { operand, .. } => {
            go_expression(c, s, operand);
            if let Ok((conversion, destination)) = conversion_of(c, e.span) {
                if let Ok((s1, Some(value))) = expression_rule(c, s, operand) {
                    flat_converted(c, s1, value, conversion, destination, e.span);
                }
            }
        },
        ExpressionKind::Unary { operator, operator_span, operand } => {
            go_expression(c, s, operand);
            if let Ok((s1, Some(value))) = expression_rule(c, s, operand) {
                flat_negated(c, s1, value, *operator, operand.span, *operator_span, e.span);
            }
        },
        ExpressionKind::Binary { left, operator, operator_span, right } => {
            go_short_circuit(c, s, e);
            go_operand(c, s, left);
            if let Ok((s1, Some(first))) = operand_rule(c, s, left) {
                go_operand(c, s1, right);
                if let Ok((s2, Some(second))) = operand_rule(c, s1, right) {
                    if let Ok(ty) = raw_type(c, e.span) {
                        if let Ok(operator) = binary_of(*operator) {
                            flat_checked_binary(c, s2, ty, operator, first, second, *operator_span, e.span);
                        }
                    }
                }
            }
        },
        ExpressionKind::List(elements) => {
            go_operands(c, s, elements@, 0, seq![]);
            flat_aggregates(c);
        },
        ExpressionKind::Mapping(entries) => {
            go_entries(c, s, entries@, 0, seq![]);
            flat_aggregates(c);
        },
        ExpressionKind::TypedEmptyList(_) => flat_aggregates(c),
        ExpressionKind::TypedEmptyMap(_) => flat_aggregates(c),
        ExpressionKind::Call { .. } => go_call(c, s, e),
        ExpressionKind::Member { value, .. } => go_operand(c, s, value),
        ExpressionKind::Index { value, index } => {
            go_operand(c, s, value);
            if let Ok((s1, Some(receiver))) = operand_rule(c, s, value) {
                go_expression(c, s1, index);
                if let Ok((s2, Some(position))) = expression_rule(c, s1, index) {
                    flat_materialized(c, s2, position, index.span);
                    if let Ok((s3, position)) = materialized(c, s2, position, index.span) {
                        flat_indexed(c, s3, receiver, position, e.span, index.span);
                    }
                }
            }
        },
        ExpressionKind::Block(block) => go_block_value(c, s, block),
        ExpressionKind::If { .. } => go_if_expression(c, s, e),
        ExpressionKind::Is { value, .. } => go_test(c, s, value, e.span),
        ExpressionKind::Try { value, .. } => {
            go_operand(c, s, value);
            if let Ok((s1, Some(operand))) = operand_rule(c, s, value) {
                go_attempted(c, s1, e.span, value.span, operand);
            }
        },
        _ => {},
    }
}

pub proof fn go_operand(c: Context, s: State, e: &Expression)
    ensures
        operand_rule(c, s, e) matches Ok((after, value)) ==> goes(s, after) && value is Some == after.block is Some,
    decreases e, 5int,
{
    lemma_steps();
    go_expression(c, s, e);
    if let Ok((s1, Some(value))) = expression_rule(c, s, e) {
        flat_stabilized(c, s1, value, e.span);
        reveal(flat);
    }
}

proof fn go_operands(c: Context, s: State, expressions: Seq<Expression>, from: int, values: Seq<OperandView>)
    ensures
        operands_from(c, s, expressions, from, values) matches Ok((after, _)) ==> goes(s, after),
    decreases expressions, expressions.len() - from,
{
    lemma_steps();
    if 0 <= from < expressions.len() {
        go_operand(c, s, &expressions[from]);
        if let Ok((s1, Some(value))) = operand_rule(c, s, &expressions[from]) {
            go_operands(c, s1, expressions, from + 1, values.push(value));
        }
    }
}

proof fn go_argument(c: Context, s: State, argument: &Argument)
    ensures
        argument_rule(c, s, argument) matches Ok((after, _)) ==> goes(s, after),
    decreases argument, 0int,
{
    match &argument.kind {
        ArgumentKind::Positional(value) => go_operand(c, s, value),
        ArgumentKind::Named { value, .. } => go_operand(c, s, value),
    }
}

proof fn go_arguments(c: Context, s: State, arguments: Seq<Argument>, from: int, values: Seq<OperandView>)
    ensures
        arguments_from(c, s, arguments, from, values) matches Ok((after, _)) ==> goes(s, after),
    decreases arguments, arguments.len() - from,
{
    lemma_steps();
    if 0 <= from < arguments.len() {
        go_argument(c, s, &arguments[from]);
        if let Ok((s1, Some(value))) = argument_rule(c, s, &arguments[from]) {
            go_arguments(c, s1, arguments, from + 1, values.push(value));
        }
    }
}

proof fn go_entry(c: Context, s: State, entry: &MapEntry)
    ensures
        entry_rule(c, s, entry) matches Ok((after, _)) ==> goes(s, after),
    decreases entry, 0int,
{
    lemma_steps();
    go_operand(c, s, &entry.key);
    if let Ok((s1, Some(_))) = operand_rule(c, s, &entry.key) {
        go_operand(c, s1, &entry.value);
    }
}

proof fn go_entries(
    c: Context,
    s: State,
    entries: Seq<MapEntry>,
    from: int,
    values: Seq<(OperandView, OperandView)>,
)
    ensures
        entries_from(c, s, entries, from, values) matches Ok((after, _)) ==> goes(s, after),
    decreases entries, entries.len() - from,
{
    lemma_steps();
    if 0 <= from < entries.len() {
        go_entry(c, s, &entries[from]);
        if let Ok((s1, Some(value))) = entry_rule(c, s, &entries[from]) {
            go_entries(c, s1, entries, from + 1, values.push(value));
        }
    }
}

proof fn go_receiver(c: Context, s: State, callee: &Expression)
    ensures
        receiver_rule(c, s, callee) matches Ok((after, _)) ==> goes(s, after),
    decreases callee, 0int,
{
    if let ExpressionKind::Member { value, .. } = &callee.kind {
        go_operand(c, s, value);
    }
}

proof fn go_message(c: Context, s: State, argument: &Argument)
    ensures
        message_rule(c, s, argument) matches Ok((after, _)) ==> goes(s, after),
    decreases argument, 0int,
{
    match &argument.kind {
        ArgumentKind::Positional(value) => go_expression(c, s, value),
        ArgumentKind::Named { value, .. } => go_expression(c, s, value),
    }
}

proof fn go_panic(c: Context, s: State, arguments: Seq<Argument>, expression: Span)
    ensures
        panic_rule(c, s, arguments, expression) matches Ok((after, _)) ==> goes(s, after),
    decreases arguments, arguments.len() + 1,
{
    lemma_steps();
    lemma_leaves(c);
    if arguments.len() == 1 {
        go_message(c, s, &arguments[0]);
        if let Ok((s1, Some(message))) = message_rule(c, s, &arguments[0]) {
            if let Ok((s2, failure)) = fail(c, s1, expression, FailureOperation::ExplicitPanic) {
                lemma_finish(s2, TerminatorView::Panic { message, failure }, expression);
            }
        }
    }
}

proof fn go_call(c: Context, s: State, e: &Expression)
    ensures
        call_rule(c, s, e) matches Ok((after, _)) ==> goes(s, after),
    decreases e, 2int,
{
    lemma_steps();
    if let ExpressionKind::Call { callee, arguments } = &e.kind {
        go_panic(c, s, arguments@, e.span);
        go_arguments(c, s, arguments@, 0, seq![]);
        go_receiver(c, s, callee);
        if let Some(target) = target_of(c.analysis, e.span) {
            if let Ok((s1, Some(values))) = arguments_from(c, s, arguments@, 0, seq![]) {
                flat_called(c, s1, e.span, target, None, values);
                if let Some(i) = latest(c.analysis.constructors@, e.span) {
                    flat_constructed(c, s1, e.span, c.analysis.constructors@[i].kind, values);
                }
            }
            if let Ok((s1, Some(receiver))) = receiver_rule(c, s, callee) {
                go_arguments(c, s1, arguments@, 0, seq![]);
                if let Ok((s2, Some(values))) = arguments_from(c, s1, arguments@, 0, seq![]) {
                    flat_called(c, s2, e.span, target, Some(receiver), values);
                }
            }
        }
    }
}

proof fn go_test(c: Context, s: State, value: &Expression, expression: Span)
    ensures
        test_rule(c, s, value, expression) matches Ok((after, _)) ==> goes(s, after),
    decreases value, 6int,
{
    lemma_steps();
    lemma_leaves(c);
    go_operand(c, s, value);
    if let Some(i) = only(c.semantic.union_tests@, expression) {
        let test = c.semantic.union_tests@[i];
        if let Ok((s1, Some(operand))) = operand_rule(c, s, value) {
            if let Ok(alternative) = alternative_id(c, test.operand_union, test.alternative@) {
                if let Ok((s2, destination)) = temporary(c, s1, primitive_type(PrimitiveType::Bool)) {
                    let operation = OperationView::UnionTest { destination, union: operand, alternative };
                    if let Ok((s3, _)) = emit(s2, operation, expression) {
                        if let Ok((after, _)) = test_rule(c, s, value, expression) {
                            lemma_alike(s3, after);
                        }
                    }
                }
            }
        }
    }
}

/// How an `and` or an `or` is laid out: `tested` is where the left side has come to its value, and the right side is
/// lowered from `start` to `end`, of which `after` is what follows.
pub open spec fn circuit_laid(
    both: bool,
    tested: State,
    condition: OperandView,
    result: LocalId,
    start: State,
    end: State,
    value: Option<OperandView>,
    after: State,
) -> bool {
    &&& tested.block is Some
    &&& start.block is Some
    &&& after.block is Some
    &&& start.block != after.block
    &&& (start.block->0).0 >= tested.blocks.len()
    &&& ends_with(
        after.blocks,
        tested.block->0,
        if both {
            TerminatorView::Branch { condition, then_block: start.block->0, else_block: after.block->0 }
        } else {
            TerminatorView::Branch { condition, then_block: after.block->0, else_block: start.block->0 }
        },
    )
    &&& start.blocks[(tested.block->0).0 as int].operations.last().0 == OperationView::Copy {
        destination: result,
        operand: condition,
    }
    &&& after.blocks[(tested.block->0).0 as int].operations
        == start.blocks[(tested.block->0).0 as int].operations
    &&& end.block is Some == value is Some
    &&& end.block matches Some(last) ==> {
        &&& ends_with(after.blocks, last, TerminatorView::Jump(after.block->0))
        &&& after.blocks[last.0 as int].operations.last().0 == OperationView::Assign {
            destination: whole(result),
            value: value->0,
        }
    }
}

#[verifier::rlimit(60)]
proof fn lemma_circuit(
    s: State,
    tested: State,
    condition: OperandView,
    result: LocalId,
    copied: State,
    start: State,
    end: State,
    value: Option<OperandView>,
    assigned: State,
    both: bool,
    span: Span,
    right_span: Span,
)
    requires
        flat(tested, copied),
        copied.block is Some,
        in_block(copied),
        copied.blocks[(copied.block->0).0 as int].operations.len() > 0,
        copied.blocks[(copied.block->0).0 as int].operations.last().0 == (OperationView::Copy {
            destination: result,
            operand: condition,
        }),
        start == entered(open_block(copied).0, open_block(copied).1),
        match value {
            Some(value) => flat(end, assigned) && in_block(end) && assigned.blocks[(
            end.block->0).0 as int].operations.last().0 == (OperationView::Assign {
                destination: whole(result),
                value,
            }),
            None => assigned == end,
        },
    ensures
        ({
            let decision = copied.block->0;
            let (s1, merge) = open_block(assigned);
            let right_block = start.block->0;
            let s2 = seal(
                s1,
                decision,
                if both {
                    TerminatorView::Branch { condition, then_block: right_block, else_block: merge }
                } else {
                    TerminatorView::Branch { condition, then_block: merge, else_block: right_block }
                },
                span,
            );
            let s3 = match assigned.block {
                Some(block) => seal(s2, block, TerminatorView::Jump(merge), right_span),
                None => s2,
            };
            let after = entered(s3, merge);
            &&& goes(start, end) && goes(s, tested) ==> s.blocks.len() <= after.blocks.len()
            &&& fits(after) && alive(s) && goes(s, tested) && goes(start, end) && value is Some == end.block is Some
                ==> goes(s, after) && circuit_laid(both, tested, condition, result, start, end, value, after)
        }),
{
    let decision = copied.block->0;
    lemma_open(copied);
    lemma_open(assigned);
    let (s1, merge) = open_block(assigned);
    let right_block = start.block->0;
    let split = if both {
        TerminatorView::Branch { condition, then_block: right_block, else_block: merge }
    } else {
        TerminatorView::Branch { condition, then_block: merge, else_block: right_block }
    };
    let s2 = seal(s1, decision, split, span);
    if decision.0 < s1.blocks.len() {
        lemma_seal(s1, decision, split, span);
    } else {
        reveal(seal);
        lemma_located(s1, span);
    }
    let s3 = match assigned.block {
        Some(block) => seal(s2, block, TerminatorView::Jump(merge), right_span),
        None => s2,
    };
    if let Some(block) = assigned.block {
        if block.0 < s2.blocks.len() {
            lemma_seal(s2, block, TerminatorView::Jump(merge), right_span);
        } else {
            reveal(seal);
            lemma_located(s2, right_span);
        }
    }
    let after = entered(s3, merge);
    lemma_steps();
    reveal(goes);
    reveal(flat);
    if fits(after) && alive(s) && goes(s, tested) && goes(start, end) && value is Some == end.block is Some {
        assert(alive(tested));
        assert(alive(copied)) by {
            assert(copied.blocks[decision.0 as int].terminator == tested.blocks[decision.0 as int].terminator);
        }
        assert(right_block.0 == copied.blocks.len());
        assert(alive(start));
        assert(end.blocks[decision.0 as int] == start.blocks[decision.0 as int]);
        assert(assigned.blocks[decision.0 as int] == end.blocks[decision.0 as int]);
        assert(merge.0 == assigned.blocks.len());
        assert(after.blocks[merge.0 as int] == s1.blocks[merge.0 as int]);
        assert forall|b: int| 0 <= b < s.blocks.len() implies longer(
            s.blocks[b].operations,
            (#[trigger] after.blocks[b]).operations,
        ) && (!at(s.block, b) ==> after.blocks[b] == s.blocks[b]) by {
            assert(longer(s.blocks[b].operations, tested.blocks[b].operations));
            assert(longer(tested.blocks[b].operations, copied.blocks[b].operations));
            assert(start.blocks[b] == copied.blocks[b]);
            assert(end.blocks[b] == start.blocks[b]);
            assert(assigned.blocks[b] == end.blocks[b]);
            if b != decision.0 {
                assert(after.blocks[b] == assigned.blocks[b]);
            }
        }
    }
}

/// `and` and `or` in the code that they become: the left side decides between the right side and what follows, and the
/// right side is where an `and` goes if the left one holds, and an `or` if it does not.
#[verifier::rlimit(60)]
pub proof fn lemma_short_circuit(c: Context, s: State, e: &Expression) -> (laid: (State, State))
    ensures
        match &e.kind {
            ExpressionKind::Binary { left, operator, right, .. } => match (
                operand_rule(c, s, left),
                short_circuit_rule(c, s, e),
            ) {
                (Ok((tested, Some(condition))), Ok((after, Some(OperandView::Copy(place))))) => {
                    &&& place == whole(place.local)
                    &&& expression_rule(c, laid.0, right) matches Ok((end, value))
                    &&& end == laid.1
                    &&& fits(after) && alive(s) && goes(s, tested) && (goes(laid.0, end) && value is Some
                        == end.block is Some) ==> {
                        &&& goes(s, after)
                        &&& circuit_laid(
                            *operator == SourceOperator::LogicalAnd,
                            tested,
                            condition,
                            place.local,
                            laid.0,
                            end,
                            value,
                            after,
                        )
                    }
                    &&& goes(laid.0, end) && goes(s, tested) ==> s.blocks.len() <= after.blocks.len()
                },
                (Ok((tested, Some(condition))), Ok((after, _))) => false,
                (Ok((tested, None)), Ok((after, value))) => after == tested && value is None,
                _ => short_circuit_rule(c, s, e) is Err,
            },
            _ => true,
        },
{
    let mut laid = (s, s);
    lemma_steps();
    lemma_leaves(c);
    if let ExpressionKind::Binary { left, operator, right, .. } = &e.kind {
        if let Ok((tested, Some(condition))) = operand_rule(c, s, left) {
            if let Ok(ty) = raw_type(c, e.span) {
                if let Ok((s2, result)) = temporary(c, tested, ty) {
                    let first = OperationView::Copy { destination: result, operand: condition };
                    lemma_emit(s2, first, left.span);
                    if let Ok((s3, _)) = emit(s2, first, left.span) {
                        if let Some(decision) = s3.block {
                            assert(in_block(s3) && s3.block == s2.block) by {
                                reveal(flat);
                            }
                            lemma_open(s3);
                            let (s4, right_block) = open_block(s3);
                            let start = entered(s4, right_block);
                            if let Ok((end, value)) = expression_rule(c, start, right) {
                                let last = match value {
                                    Some(value) => OperationView::Assign { destination: whole(result), value },
                                    None => arbitrary(),
                                };
                                lemma_emit(end, last, right.span);
                                let assigned = match value {
                                    Some(value) => emit(end, last, right.span),
                                    None => Ok((end, ())),
                                };
                                if let Ok((s5, _)) = assigned {
                                    lemma_circuit(
                                        s,
                                        tested,
                                        condition,
                                        result,
                                        s3,
                                        start,
                                        end,
                                        value,
                                        s5,
                                        *operator == SourceOperator::LogicalAnd,
                                        e.span,
                                        right.span,
                                    );
                                    laid = (start, end);
                                }
                            }
                        }
                    }
                }
            }
        }
    }
    laid
}

proof fn go_short_circuit(c: Context, s: State, e: &Expression)
    ensures
        short_circuit_rule(c, s, e) matches Ok((after, _)) ==> goes(s, after),
    decreases e, 2int,
{
    lemma_steps();
    if let ExpressionKind::Binary { left, operator, right, .. } = &e.kind {
        go_operand(c, s, left);
        let (start, end) = lemma_short_circuit(c, s, e);
        go_expression(c, start, right);
        if let Ok((after, _)) = short_circuit_rule(c, s, e) {
            assert(s.blocks.len() <= after.blocks.len() && (fits(after) && alive(s) ==> goes(s, after)) ==> goes(
                s,
                after,
            )) by {
                reveal(goes);
            }
        }
    }
}

pub proof fn go_statements(c: Context, s: State, statements: Seq<Statement>, from: int)
    ensures
        statements_from(c, s, statements, from) matches Ok((after, _)) ==> goes(s, after),
    decreases statements, statements.len() - from,
{
    lemma_steps();
    if 0 <= from < statements.len() && s.block is Some {
        go_statement(c, s, &statements[from]);
        if let Ok((s1, _)) = statement_rule(c, s, &statements[from]) {
            go_statements(c, s1, statements, from + 1);
        }
    }
}

pub proof fn go_block(c: Context, s: State, block: &Block)
    ensures
        block_rule(c, s, block) matches Ok((after, _)) ==> goes(s, after),
    decreases block, 0int,
{
    go_statements(c, s, block.statements@, 0);
}

proof fn go_statement_block(c: Context, s: State, block: &Block)
    ensures
        statement_block_rule(c, s, block) matches Ok((after, _)) ==> goes(s, after),
    decreases block, 1int,
{
    lemma_steps();
    go_block(c, s, block);
    if let Ok((s1, _)) = block_rule(c, s, block) {
        if let Some(value) = &block.value {
            go_expression(c, s1, value);
        }
    }
}

proof fn go_block_value(c: Context, s: State, block: &Block)
    ensures
        block_value_rule(c, s, block) matches Ok((after, _)) ==> goes(s, after),
    decreases block, 1int,
{
    lemma_steps();
    go_block(c, s, block);
    if let Ok((s1, _)) = block_rule(c, s, block) {
        if let Some(value) = &block.value {
            go_expression(c, s1, value);
        }
    }
}

pub proof fn go_statement_body(c: Context, s: State, body: &StatementBody)
    ensures
        statement_body_rule(c, s, body) matches Ok((after, _)) ==> goes(s, after),
    decreases body, 0int,
{
    match &body.kind {
        StatementBodyKind::Block(block) => go_statement_block(c, s, block),
        StatementBodyKind::Statement(statement) => go_statement(c, s, statement),
    }
}

pub proof fn go_expression_body(c: Context, s: State, body: &ExpressionBody)
    ensures
        expression_body_rule(c, s, body) matches Ok((after, value)) ==> goes(s, after) && value is Some
            == after.block is Some,
    decreases body, 0int,
{
    match &body.kind {
        ExpressionBodyKind::Expression(expression) => go_expression(c, s, expression),
        ExpressionBodyKind::Block(block) => go_block_value(c, s, block),
    }
}

pub proof fn go_condition(c: Context, s: State, branch: &ConditionalStatementBranch)
    ensures
        match condition_rule(c, s, branch) {
            Err(_) => true,
            Ok((after, None)) => goes(s, after) && after.block is None,
            Ok((after, Some(other))) => {
                &&& goes(s, after)
                &&& goes(s, entered(after, other))
                &&& fits(after) && alive(s) ==> other.0 >= s.blocks.len() && !at(after.block, other.0 as int)
            },
        },
    decreases branch, 0int,
{
    go_expression(c, s, &branch.condition);
    if let Ok((tested, Some(condition))) = expression_rule(c, s, &branch.condition) {
        let decision = tested.block->0;
        let inside = stripped(&branch.condition);
        lemma_branched(c, tested, decision, condition, inside, branch.condition.span, branch.body.span);
        if let Ok((body, other)) = branched(
            c,
            tested,
            decision,
            condition,
            inside,
            branch.condition.span,
            branch.body.span,
        ) {
            go_statement_body(c, body, &branch.body);
            if let Ok((after, _)) = statement_body_rule(c, body, &branch.body) {
                lemma_fork_done(s, tested, condition, body, other, after);
            }
        }
    }
}

pub proof fn go_branches(
    c: Context,
    base: State,
    s: State,
    branches: Seq<ConditionalStatementBranch>,
    from: int,
    paths: Seq<(BlockId, Span)>,
)
    requires
        goes(base, s),
        fits(s) && alive(base) ==> parked(base, s, paths) && beside(s, paths),
    ensures
        branches_from(c, s, branches, from, paths) matches Ok((after, (ends, through))) ==> {
            &&& goes(base, after)
            &&& goes(s, after)
            &&& !through ==> after.block is None
            &&& fits(after) && alive(base) ==> parked(base, after, ends) && beside(after, ends)
        },
    decreases branches, branches.len() - from,
{
    lemma_steps();
    if 0 <= from < branches.len() {
        go_condition(c, s, &branches[from]);
        match condition_rule(c, s, &branches[from]) {
            Err(_) => {},
            Ok((after, None)) => {
                assert(s.blocks.len() <= after.blocks.len()) by {
                    reveal(goes);
                }
                if fits(after) && alive(base) {
                    lemma_parked(base, s, after, paths);
                }
            },
            Ok((after, Some(other))) => {
                let more = with_path(paths, after, branches[from].body.span);
                let next = entered(restored(after, s.narrowings), other);
                lemma_alike(entered(after, other), next);
                assert(s.blocks.len() <= after.blocks.len()) by {
                    reveal(goes);
                }
                if fits(next) && alive(base) {
                    lemma_parked(base, s, after, paths);
                    lemma_pushed(base, after, paths, branches[from].body.span);
                    assert(alive(s)) by {
                        reveal(goes);
                    }
                    assert forall|i: int| 0 <= i < more.len() implies !at(next.block, (#[trigger] more[i]).0.0 as int) by {
                        if i < paths.len() {
                            assert(more[i] == paths[i]);
                            assert(unfinished(s, paths[i].0));
                        }
                    }
                    assert(parked(base, next, more));
                }
                go_branches(c, base, next, branches, from + 1, more);
            },
        }
    }
}

pub proof fn go_else(c: Context, s: State, body: &Option<StatementBody>)
    ensures
        else_rule(c, s, body) matches Ok((after, _)) ==> goes(s, after),
    decreases body, 0int,
{
    lemma_steps();
    if let Some(body) = body {
        go_statement_body(c, s, body);
    }
}

proof fn go_if(c: Context, s: State, statement: &Statement)
    ensures
        if_rule(c, s, statement) matches Ok((after, _)) ==> goes(s, after),
    decreases statement, 0int,
{
    lemma_steps();
    if let StatementKind::If { branches, else_body: other } = &statement.kind {
        go_branches(c, s, s, branches@, 0, seq![]);
        if let Ok((s1, (paths, through))) = branches_from(c, s, branches@, 0, seq![]) {
            if !through {
                lemma_merged(s, s1, paths);
                let s2 = merged(s1, paths).0;
                lemma_alike(s2, restored(s2, s.narrowings));
            } else {
                go_else(c, s1, other);
                if let Ok((s2, _)) = else_rule(c, s1, other) {
                    let span = match other {
                        Some(body) => body.span,
                        None => statement.span,
                    };
                    let more = with_path(paths, s2, span);
                    assert(s1.blocks.len() <= s2.blocks.len()) by {
                        reveal(goes);
                    }
                    if fits(s2) && alive(s) {
                        lemma_parked(s, s1, s2, paths);
                        lemma_pushed(s, s2, paths, span);
                    }
                    lemma_merged(s, s2, more);
                    let s3 = merged(s2, more).0;
                    lemma_alike(s3, restored(s3, s.narrowings));
                }
            }
        }
    }
}

pub proof fn go_result(c: Context, s: State, body: &ExpressionBody, result: LocalId)
    ensures
        result_rule(c, s, body, result) matches Ok((after, valued)) ==> goes(s, after) && valued == after.block is Some,
    decreases body, 1int,
{
    lemma_steps();
    lemma_leaves(c);
    go_expression_body(c, s, body);
    if let Ok((s1, Some(value))) = expression_body_rule(c, s, body) {
        if let Ok((s2, _)) = emit(s1, OperationView::Assign { destination: whole(result), value }, body.span) {
            assert(s2.block == s1.block) by {
                reveal(flat);
            }
        }
    }
}

pub proof fn go_choice(c: Context, s: State, branch: &ConditionalExpressionBranch, result: LocalId)
    ensures
        match choice_rule(c, s, branch, result) {
            Err(_) => true,
            Ok((after, None)) => goes(s, after) && after.block is None,
            Ok((after, Some((other, valued)))) => {
                &&& goes(s, after)
                &&& goes(s, entered(after, other))
                &&& valued == after.block is Some
                &&& fits(after) && alive(s) ==> other.0 >= s.blocks.len() && !at(after.block, other.0 as int)
            },
        },
    decreases branch, 0int,
{
    go_expression(c, s, &branch.condition);
    if let Ok((tested, Some(condition))) = expression_rule(c, s, &branch.condition) {
        let decision = tested.block->0;
        let inside = stripped(&branch.condition);
        lemma_branched(c, tested, decision, condition, inside, branch.condition.span, branch.body.span);
        if let Ok((body, other)) = branched(
            c,
            tested,
            decision,
            condition,
            inside,
            branch.condition.span,
            branch.body.span,
        ) {
            go_result(c, body, &branch.body, result);
            if let Ok((after, _)) = result_rule(c, body, &branch.body, result) {
                lemma_fork_done(s, tested, condition, body, other, after);
            }
        }
    }
}

pub proof fn go_choices(
    c: Context,
    base: State,
    s: State,
    branches: Seq<ConditionalExpressionBranch>,
    result: LocalId,
    from: int,
    paths: Seq<(BlockId, Span)>,
)
    requires
        goes(base, s),
        fits(s) && alive(base) ==> parked(base, s, paths) && beside(s, paths),
    ensures
        choices_from(c, s, branches, result, from, paths) matches Ok((after, (ends, through))) ==> {
            &&& goes(base, after)
            &&& goes(s, after)
            &&& !through ==> after.block is None
            &&& fits(after) && alive(base) ==> parked(base, after, ends) && beside(after, ends)
        },
    decreases branches, branches.len() - from,
{
    lemma_steps();
    if 0 <= from < branches.len() {
        go_choice(c, s, &branches[from], result);
        match choice_rule(c, s, &branches[from], result) {
            Err(_) => {},
            Ok((after, None)) => {
                assert(s.blocks.len() <= after.blocks.len()) by {
                    reveal(goes);
                }
                if fits(after) && alive(base) {
                    lemma_parked(base, s, after, paths);
                }
            },
            Ok((after, Some((other, valued)))) => {
                let more = with_path(paths, after, branches[from].body.span);
                let next = entered(restored(after, s.narrowings), other);
                lemma_alike(entered(after, other), next);
                assert(s.blocks.len() <= after.blocks.len()) by {
                    reveal(goes);
                }
                if fits(next) && alive(base) {
                    lemma_parked(base, s, after, paths);
                    lemma_pushed(base, after, paths, branches[from].body.span);
                    assert(alive(s)) by {
                        reveal(goes);
                    }
                    assert forall|i: int| 0 <= i < more.len() implies !at(next.block, (#[trigger] more[i]).0.0 as int) by {
                        if i < paths.len() {
                            assert(more[i] == paths[i]);
                            assert(unfinished(s, paths[i].0));
                        }
                    }
                    assert(parked(base, next, more));
                }
                assert(!valued ==> more == paths);
                go_choices(c, base, next, branches, result, from + 1, more);
            },
        }
    }
}

proof fn go_if_expression(c: Context, s: State, e: &Expression)
    ensures
        if_expression_rule(c, s, e) matches Ok((after, _)) ==> goes(s, after),
    decreases e, 2int,
{
    lemma_steps();
    lemma_leaves(c);
    if let ExpressionKind::If { branches, else_branch: other } = &e.kind {
        if let Ok(ty) = raw_type(c, e.span) {
            if let Ok((s0, result)) = temporary(c, s, ty) {
                go_choices(c, s, s0, branches@, result, 0, seq![]);
                if let Ok((s1, (paths, through))) = choices_from(c, s0, branches@, result, 0, seq![]) {
                    if !through {
                        lemma_merged(s, s1, paths);
                        let s2 = merged(s1, paths).0;
                        lemma_alike(s2, restored(s2, s.narrowings));
                    } else {
                        go_result(c, s1, other, result);
                        if let Ok((s2, valued)) = result_rule(c, s1, other, result) {
                            let more = with_path(paths, s2, other.span);
                            assert(!valued ==> more == paths);
                            assert(s1.blocks.len() <= s2.blocks.len()) by {
                                reveal(goes);
                            }
                            if fits(s2) && alive(s) {
                                lemma_parked(s, s1, s2, paths);
                                lemma_pushed(s, s2, paths, other.span);
                            }
                            lemma_merged(s, s2, more);
                            let s3 = merged(s2, more).0;
                            lemma_alike(s3, restored(s3, s.narrowings));
                        }
                    }
                }
            }
        }
    }
}

/// How a `while` loop is laid out: control comes to `start`, where the condition is lowered to `tested`; the body is
/// lowered from `body` to `end`, and `after` is what follows.
pub open spec fn while_laid(
    s: State,
    span: Span,
    start: State,
    tested: State,
    condition: OperandView,
    body: State,
    end: State,
    after: State,
) -> bool {
    &&& start.block is Some
    &&& (start.block->0).0 >= s.blocks.len()
    &&& s.block is Some
    &&& ends_with(after.blocks, s.block->0, TerminatorView::Jump(start.block->0))
    &&& tested.block is Some
    &&& body.block is Some
    &&& after.block is Some
    &&& body.block != after.block
    &&& (body.block->0).0 >= tested.blocks.len()
    &&& (after.block->0).0 >= tested.blocks.len()
    &&& ends_with(
        after.blocks,
        tested.block->0,
        TerminatorView::Branch { condition, then_block: body.block->0, else_block: after.block->0 },
    )
    &&& body.loops == s.loops.push(
        LoopView {
            source: span,
            continue_target: start.block->0,
            break_target: after.block->0,
            cleanup: None,
        },
    )
    &&& end.block matches Some(last) ==> ends_with(after.blocks, last, TerminatorView::Jump(start.block->0))
}

/// What is left when a loop is closed, of which the body was lowered from `body` to `end`.
#[verifier::rlimit(60)]
proof fn lemma_while(
    s: State,
    entry: State,
    tested: State,
    condition: OperandView,
    split: State,
    body: State,
    end: State,
    closed: State,
    start_block: BlockId,
    body_block: BlockId,
    exit_block: BlockId,
    span: Span,
)
    requires
        goes(entry, tested),
        entry.block == Some(start_block),
        tested.block is Some,
        entry.loops == s.loops,
        entry.blocks.len() == s.blocks.len() + 1,
        fits(entry) && alive(s) ==> {
            &&& s.block is Some
            &&& alive(entry)
            &&& start_block.0 == s.blocks.len()
            &&& ends_with(entry.blocks, s.block->0, TerminatorView::Jump(start_block))
            &&& entry.blocks[(s.block->0).0 as int].operations == s.blocks[(s.block->0).0 as int].operations
            &&& forall|b: int|
                0 <= b < s.blocks.len() && !at(s.block, b) ==> #[trigger] entry.blocks[b] == s.blocks[b]
        },
        split.blocks.len() == tested.blocks.len() + 2,
        split.loops == tested.loops,
        body_block == BlockId(tested.blocks.len() as usize),
        exit_block == BlockId((tested.blocks.len() + 1) as usize),
        ends_with(
            split.blocks,
            tested.block->0,
            TerminatorView::Branch { condition, then_block: body_block, else_block: exit_block },
        ),
        (tested.block->0).0 < tested.blocks.len() ==> split.blocks[(tested.block->0).0 as int].operations
            == tested.blocks[(tested.block->0).0 as int].operations,
        forall|b: int|
            0 <= b < tested.blocks.len() && !at(tested.block, b) ==> #[trigger] split.blocks[b] == tested.blocks[b],
        forall|b: int|
            tested.blocks.len() <= b < split.blocks.len() && !at(tested.block, b) ==> #[trigger] split.blocks[b] == (
            BlockView { operations: seq![], terminator: None }),
        flat(
            entered(
                looping(
                    split,
                    LoopView {
                        source: span,
                        continue_target: start_block,
                        break_target: exit_block,
                        cleanup: None,
                    },
                ),
                body_block,
            ),
            body,
        ),
        goes(body, end),
        closed.block is None,
        closed.blocks.len() == end.blocks.len(),
        closed.loops == if end.loops.len() > 0 {
            end.loops.drop_last()
        } else {
            end.loops
        },
        forall|b: int|
            0 <= b < end.blocks.len() ==> (#[trigger] closed.blocks[b]).operations == end.blocks[b].operations && (!at(
                end.block,
                b,
            ) ==> closed.blocks[b] == end.blocks[b]),
        end.block matches Some(block) ==> ends_with(closed.blocks, block, TerminatorView::Jump(start_block)),
    ensures
        goes(s, entered(closed, exit_block)),
        fits(closed) && alive(s) ==> while_laid(
            s,
            span,
            entry,
            tested,
            condition,
            body,
            end,
            entered(closed, exit_block),
        ),
{
    reveal(goes);
    reveal(flat);
    reveal(looping);
    let after = entered(closed, exit_block);
    if fits(after) && alive(s) {
        let d = tested.block->0;
        assert(alive(tested));
        assert(d.0 < tested.blocks.len());
        assert(body.blocks[body_block.0 as int].terminator == split.blocks[body_block.0 as int].terminator);
        assert(alive(body));
        assert(end.loops == body.loops);
        assert(body.loops.drop_last() == s.loops);
        assert(body.blocks[exit_block.0 as int] == split.blocks[exit_block.0 as int]);
        assert(end.blocks[exit_block.0 as int] == body.blocks[exit_block.0 as int]);
        assert(after.blocks[exit_block.0 as int] == end.blocks[exit_block.0 as int]);
        assert forall|b: int| 0 <= b < tested.blocks.len() implies #[trigger] after.blocks[b] == split.blocks[b] by {
            assert(body.blocks[b] == split.blocks[b]);
            assert(end.blocks[b] == body.blocks[b]);
        }
        assert(after.blocks[d.0 as int] == split.blocks[d.0 as int]);
        let before = (s.block->0).0 as int;
        assert(tested.blocks[before] == entry.blocks[before]);
        assert(after.blocks[before] == split.blocks[before]);
        assert forall|b: int| 0 <= b < s.blocks.len() implies longer(
            s.blocks[b].operations,
            (#[trigger] after.blocks[b]).operations,
        ) && (!at(s.block, b) ==> after.blocks[b] == s.blocks[b]) by {
            assert(after.blocks[b] == split.blocks[b]);
            assert(tested.blocks[b] == entry.blocks[b]);
            assert(d.0 != b);
            assert(split.blocks[b] == tested.blocks[b]);
        }
    }
}

/// A `while` loop in the code that it becomes.
#[verifier::rlimit(60)]
pub proof fn go_while(c: Context, s: State, statement: &Statement) -> (laid: (State, State, State))
    ensures
        while_rule(c, s, statement) matches Ok((after, _)) ==> goes(s, after),
        match (&statement.kind, while_rule(c, s, statement)) {
            (StatementKind::While { condition, body }, Ok((after, _))) => match expression_rule(c, laid.0, condition) {
                Ok((tested, Some(value))) => {
                    &&& statement_body_rule(c, laid.1, body) == Ok::<(State, ()), &'static str>((laid.2, ()))
                    &&& fits(after) && alive(s) ==> while_laid(
                        s,
                        statement.span,
                        laid.0,
                        tested,
                        value,
                        laid.1,
                        laid.2,
                        after,
                    )
                },
                Ok((tested, None)) => after == tested,
                Err(_) => false,
            },
            _ => true,
        },
    decreases statement, 0int,
{
    let mut laid = (s, s, s);
    lemma_steps();
    if let StatementKind::While { condition, body } = &statement.kind {
        lemma_open(s);
        let (s1, start_block) = open_block(s);
        lemma_finish(s1, TerminatorView::Jump(start_block), statement.span);
        if let Ok((s2, _)) = finish(s1, TerminatorView::Jump(start_block), statement.span) {
            let entry = entered(s2, start_block);
            assert(goes(s, entry)) by {
                reveal(goes);
            }
            go_expression(c, entry, condition);
            laid = (entry, s, s);
            if let Ok((tested, Some(value))) = expression_rule(c, entry, condition) {
                lemma_open(tested);
                let (s3, body_block) = open_block(tested);
                lemma_open(s3);
                let (s4, exit_block) = open_block(s3);
                let end = TerminatorView::Branch { condition: value, then_block: body_block, else_block: exit_block };
                lemma_finish(s4, end, condition.span);
                if let Ok((split, _)) = finish(s4, end, condition.span) {
                    let inside = looping(
                        split,
                        LoopView {
                            source: statement.span,
                            continue_target: start_block,
                            break_target: exit_block,
                            cleanup: None,
                        },
                    );
                    flat_activated(c, entered(inside, body_block), stripped(condition), body.span);
                    if let Ok((first, _)) = activated(
                        c,
                        entered(inside, body_block),
                        stripped(condition),
                        body.span,
                    ) {
                        go_statement_body(c, first, body);
                        if let Ok((last, _)) = statement_body_rule(c, first, body) {
                            lemma_closed_loop(last, split.narrowings, start_block, body.span);
                            if let Ok((closed, _)) = closed_loop(last, split.narrowings, start_block, body.span) {
                                assert(inside.narrowings == split.narrowings) by {
                                    reveal(looping);
                                }
                                assert(fits(entry) && alive(s) ==> alive(entry)) by {
                                    reveal(goes);
                                }
                                lemma_while(
                                    s,
                                    entry,
                                    tested,
                                    value,
                                    split,
                                    first,
                                    last,
                                    closed,
                                    start_block,
                                    body_block,
                                    exit_block,
                                    statement.span,
                                );
                                laid = (entry, first, last);
                            }
                        }
                    }
                }
            }
        }
    }
    laid
}

pub proof fn go_statement(c: Context, s: State, statement: &Statement)
    ensures
        statement_rule(c, s, statement) matches Ok((after, _)) ==> goes(s, after),
    decreases statement, 1int,
{
    lemma_steps();
    match &statement.kind {
        StatementKind::Local { name, initializer, .. } => go_local(c, s, name.span, initializer, statement.span),
        StatementKind::Assignment { .. } => go_assignment(c, s, statement),
        StatementKind::Expression(expression) => go_expression(c, s, expression),
        StatementKind::Return(value) => go_return(c, s, value, statement.span),
        StatementKind::Break => go_control(c, s, true, statement.span),
        StatementKind::Continue => go_control(c, s, false, statement.span),
        StatementKind::If { .. } => go_if(c, s, statement),
        StatementKind::While { .. } => {
            let laid = go_while(c, s, statement);
        },
        StatementKind::For { .. } => go_for(c, s, statement),
        StatementKind::Switch { .. } => go_switch(c, s, statement),
        StatementKind::Block(block) => go_statement_block(c, s, block),
    }
}

proof fn go_local(c: Context, s: State, name: Span, initializer: &Expression, span: Span)
    ensures
        local_rule(c, s, name, initializer, span) matches Ok((after, _)) ==> goes(s, after),
    decreases initializer, 5int,
{
    lemma_steps();
    lemma_leaves(c);
    if let Some(binding) = introduced_from(c.analysis.bindings@, BindingNode::Local(span), 0) {
        match binding_state(c, binding) {
            TypeState::Never => go_expression(c, s, initializer),
            TypeState::Resolved(ty) => {
                if let Ok(ty) = mapped(c, ty) {
                    let (s1, local) = declare(s, ty, Some(text_at(c.analysis.source, name)), LocalOrigin::Binding);
                    assert(flat(s, bind(s1, binding, local)));
                    go_expression(c, bind(s1, binding, local), initializer);
                }
            },
            _ => {},
        }
    }
}

proof fn go_control(c: Context, s: State, breaks: bool, span: Span)
    ensures
        control_rule(c, s, breaks, span) matches Ok((after, _)) ==> goes(s, after),
{
    reveal(control_rule);
    if let Some(i) = only(c.semantic.flow.loop_controls@, span) {
        if let Some(place) = loop_before(s.loops, c.semantic.flow.loop_controls@[i].target, s.loops.len() as int) {
            lemma_finish(s, TerminatorView::Jump(s.loops[place].break_target), span);
            lemma_finish(s, TerminatorView::Jump(s.loops[place].continue_target), span);
        }
    }
}

proof fn go_return(c: Context, s: State, value: &Option<Expression>, span: Span)
    ensures
        return_rule(c, s, value, span) matches Ok((after, _)) ==> goes(s, after),
    decreases value, 0int,
{
    lemma_steps();
    let syntax = match value {
        Some(value) => Some(value.span),
        None => None,
    };
    if let Ok(record) = return_checked(c, syntax, span) {
        flat_unit_returned(c, s, record, span);
        let returned = match value {
            Some(value) => expression_rule(c, s, value),
            None => always(unit_returned(c, s, record, span)),
        };
        if let Some(value) = value {
            go_expression(c, s, value);
        }
        if let Ok((s1, Some(value))) = returned {
            flat_cleaned(c, s1, s1.loops, s1.loops.len() as int, span);
            if let Ok((s2, _)) = cleaned(s1, s1.loops, s1.loops.len() as int, span) {
                lemma_finish(s2, TerminatorView::Return(value), span);
            }
        }
    }
}

proof fn go_suffix(c: Context, s: State, suffix: &AssignmentTargetSuffix)
    ensures
        suffix_rule(c, s, suffix) matches Ok((after, _)) ==> goes(s, after),
    decreases suffix, 0int,
{
    lemma_steps();
    if let AssignmentTargetSuffixKind::Index(index) = &suffix.kind {
        go_expression(c, s, index);
        if let Ok((s1, Some(value))) = expression_rule(c, s, index) {
            flat_materialized(c, s1, value, index.span);
        }
    }
}

proof fn go_index(c: Context, s: State, suffixes: Seq<AssignmentTargetSuffix>, span: Span)
    ensures
        index_rule(c, s, suffixes, span) matches Ok((after, _)) ==> goes(s, after),
    decreases suffixes, 0int,
{
    if let Some(i) = suffix_from(suffixes, span, 0) {
        if 0 <= i < suffixes.len() {
            go_suffix(c, s, &suffixes[i]);
        }
    }
}

#[verifier::rlimit(40)]
proof fn go_place_steps(
    c: Context,
    s: State,
    suffixes: Seq<AssignmentTargetSuffix>,
    steps: Seq<AccessPathStep>,
    place: PlaceView,
    from: int,
)
    ensures
        steps_from(c, s, suffixes, steps, place, from) matches Ok((after, _)) ==> goes(s, after),
    decreases suffixes, steps.len() - from + 1,
{
    lemma_steps();
    lemma_leaves(c);
    if 0 <= from < steps.len() {
        match steps[from] {
            AccessPathStep::StructMember { declaration, field, storage, .. } => {
                if let Ok(projection) = struct_projection(c, declaration, field, storage) {
                    go_place_steps(c, s, suffixes, steps, behind(place, projection), from + 1);
                }
            },
            AccessPathStep::TupleMember { declaration, position, .. } => {
                if let Ok(projection) = tuple_projection(c, declaration, position) {
                    go_place_steps(c, s, suffixes, steps, behind(place, projection), from + 1);
                }
            },
            AccessPathStep::ListIndex { suffix, .. } => {
                go_index(c, s, suffixes, suffix);
                if let Ok((s1, Some(index))) = index_rule(c, s, suffixes, suffix) {
                    if let Ok((s2, failure)) = fail(c, s1, suffix, FailureOperation::ListIndex) {
                        let next = behind(place, Projection::ListIndex { index, failure });
                        go_place_steps(c, s2, suffixes, steps, next, from + 1);
                    }
                }
            },
            AccessPathStep::MapIndex { suffix, .. } => {
                go_index(c, s, suffixes, suffix);
                if let Ok((s1, Some(key))) = index_rule(c, s, suffixes, suffix) {
                    if let Ok((s2, failure)) = fail(c, s1, suffix, FailureOperation::MapIndex) {
                        let next = behind(place, Projection::MapIndex { key, failure });
                        go_place_steps(c, s2, suffixes, steps, next, from + 1);
                    }
                }
            },
        }
    }
}

proof fn lemma_place_rule(
    c: Context,
    s: State,
    target: &AssignmentTarget,
    steps: Seq<AccessPathStep>,
    root: BindingId,
)
    ensures
        place_rule(c, s, target, steps, root) == match rooted(c, s, root, steps.len() == 0, target.root.span) {
            Err(fault) => Err(fault),
            Ok((next, place)) => steps_from(c, next, target.suffixes@, steps, place, 0),
        },
{
    reveal_with_fuel(place_rule, 1);
}

#[verifier::rlimit(40)]
proof fn go_place(c: Context, s: State, target: &AssignmentTarget, steps: Seq<AccessPathStep>, root: BindingId)
    ensures
        place_rule(c, s, target, steps, root) matches Ok((after, _)) ==> goes(s, after),
    decreases target, 0int,
{
    lemma_place_rule(c, s, target, steps, root);
    flat_rooted(c, s, root, steps.len() == 0, target.root.span);
    if let Ok((s1, place)) = rooted(c, s, root, steps.len() == 0, target.root.span) {
        lemma_flat_goes(s, s1);
        go_place_steps(c, s1, target.suffixes@, steps, place, 0);
        if let Ok((after, _)) = steps_from(c, s1, target.suffixes@, steps, place, 0) {
            lemma_goes_through(s, s1, after);
        }
    }
}

proof fn go_assigned(
    c: Context,
    s: State,
    place: PlaceView,
    state: TypeState,
    operator: AssignmentOperator,
    operator_span: Span,
    value: &Expression,
    target: Span,
    span: Span,
)
    ensures
        assigned_rule(c, s, place, state, operator, operator_span, value, target, span) matches Ok((after, _)) ==> goes(
            s,
            after,
        ),
    decreases value, 6int,
{
    lemma_steps();
    lemma_leaves(c);
    reveal_with_fuel(assigned_rule, 1);
    if operator == AssignmentOperator::Assign {
        go_expression(c, s, value);
    } else if let TypeState::Resolved(ty) = state {
        if let Ok((s1, before)) = temporary(c, s, ty) {
            let first = OperationView::Copy { destination: before, operand: OperandView::Copy(place) };
            if let Ok((s2, _)) = emit(s1, first, target) {
                go_operand(c, s2, value);
                if let Ok((s3, Some(right))) = operand_rule(c, s2, value) {
                    if let Ok(compound) = compound_of(operator) {
                        flat_checked_binary(c, s3, ty, compound, value_of(before), right, operator_span, span);
                    }
                }
            }
        }
    }
}

#[verifier::spinoff_prover]
proof fn go_assignment(c: Context, s: State, statement: &Statement)
    ensures
        assignment_rule(c, s, statement) matches Ok((after, _)) ==> goes(s, after),
    decreases statement, 0int,
{
    lemma_leaves(c);
    if let StatementKind::Assignment { target, operator, operator_span, value } = &statement.kind {
        if let Ok((i, root)) = authorized(c, target) {
            let annotation = c.analysis.assignment_targets@[i];
            go_place(c, s, target, annotation.steps@, root);
            if let Ok((s1, Some(place))) = place_rule(c, s, target, annotation.steps@, root) {
                let span = statement.span;
                go_assigned(c, s1, place, annotation.state, *operator, *operator_span, value, target.span, span);
                if let Ok((s2, assigned)) = assigned_rule(
                    c,
                    s1,
                    place,
                    annotation.state,
                    *operator,
                    *operator_span,
                    value,
                    target.span,
                    span,
                ) {
                    lemma_goes_through(s, s1, s2);
                    if let Some(assigned) = assigned {
                        let last = OperationView::Assign { destination: place, value: assigned };
                        if let Ok((s3, _)) = emit(s2, last, span) {
                            lemma_flat_goes(s2, s3);
                            lemma_goes_through(s, s2, s3);
                            lemma_flat_goes(s3, widened(s3, root));
                            lemma_goes_through(s, s3, widened(s3, root));
                        }
                    }
                }
            }
        }
    }
}

pub proof fn go_arm(c: Context, s: State, arm: &SwitchArm)
    ensures
        arm_rule(c, s, arm) matches Ok((after, _)) ==> goes(s, after),
    decreases arm, 0int,
{
    go_statement_body(c, s, &arm.body);
}

#[verifier::rlimit(40)]
pub proof fn go_arms(
    c: Context,
    base: State,
    s: State,
    arms: Seq<SwitchArm>,
    switch: SwitchResolution,
    union: OperandView,
    blocks: Seq<BlockId>,
    outer: Seq<Narrowing>,
    from: int,
    paths: Seq<(BlockId, Span)>,
    all: Seq<BlockId>,
)
    requires
        0 <= from <= arms.len(),
        arms.len() <= all.len(),
        forall|j: int| 0 <= j < arms.len() ==> #[trigger] all[j] == blocks[j],
        goes(base, s),
        s.block is None,
        fits(s) && alive(base) ==> parked(base, s, paths) && waiting(base, s, all, from) && clear(paths, all, from),
    ensures
        arms_from(c, s, arms, switch, union, blocks, outer, from, paths) matches Ok((after, ends)) ==> {
            &&& goes(base, after)
            &&& after.block is None
            &&& s.blocks.len() <= after.blocks.len()
            &&& fits(after) && alive(base) ==> {
                &&& parked(base, after, ends)
                &&& waiting(base, after, all, arms.len() as int)
                &&& clear(ends, all, arms.len() as int)
            }
        },
    decreases arms, arms.len() - from,
{
    lemma_steps();
    if from < arms.len() && switch.arms@[from].arm == arms[from].span {
        let start = entered(restored(s, outer), blocks[from]);
        let label = arms[from].label.span;
        flat_arm_narrowed(c, start, switch, union, from, label);
        if let Ok((s1, _)) = arm_narrowed(c, start, switch, union, from, label) {
            go_arm(c, s1, &arms[from]);
            if let Ok((s2, _)) = arm_rule(c, s1, &arms[from]) {
                assert(all[from] == blocks[from]);
                lemma_way(base, s, all, from, start, s2, paths, arms[from].body.span);
                assert(s.blocks.len() <= s2.blocks.len()) by {
                    reveal(goes);
                }
                let more = with_path(paths, s2, arms[from].body.span);
                go_arms(c, base, left(s2), arms, switch, union, blocks, outer, from + 1, more, all);
            }
        }
    }
}

pub proof fn go_rest(
    c: Context,
    base: State,
    s: State,
    other: Option<BlockId>,
    body: &Option<StatementBody>,
    outer: Seq<Narrowing>,
    paths: Seq<(BlockId, Span)>,
    all: Seq<BlockId>,
    arms: int,
)
    requires
        0 <= arms <= all.len(),
        other matches Some(block) ==> arms < all.len() && all[arms] == block,
        goes(base, s),
        s.block is None,
        fits(s) && alive(base) ==> parked(base, s, paths) && waiting(base, s, all, arms) && clear(paths, all, arms),
    ensures
        rest_rule(c, s, other, body, outer, paths) matches Ok((after, ends)) ==> {
            &&& goes(base, after)
            &&& after.block is None
            &&& s.blocks.len() <= after.blocks.len()
            &&& fits(after) && alive(base) ==> parked(base, after, ends)
        },
    decreases body, 1int,
{
    lemma_steps();
    if let Some(block) = other {
        if let Some(body) = body {
            let start = entered(restored(s, outer), block);
            go_statement_body(c, start, body);
            if let Ok((s1, _)) = statement_body_rule(c, start, body) {
                lemma_way(base, s, all, arms, start, s1, paths, body.span);
                assert(s.blocks.len() <= s1.blocks.len()) by {
                    reveal(goes);
                }
            }
        }
    }
}

/// What the choice of a `switch` between its arms comes to: one new block for each arm, and perhaps one for the rest,
/// all of which wait.
#[verifier::rlimit(40)]
pub proof fn lemma_dispatched(c: Context, s: State, switch: SwitchResolution, union: OperandView, arms: nat, span: Span)
    ensures
        dispatched(c, s, switch, union, arms, span) matches Ok((after, (blocks, other))) ==> {
            let all = match other {
                Some(block) => blocks.push(block),
                None => blocks,
            };
            &&& goes(s, after)
            &&& after.block is None
            &&& blocks.len() == arms
            &&& s.block is Some
            &&& alternatives_of(
                c,
                switch.operand_union,
                "union identity names a non-union nominal",
                "union identity names a non-union type",
            ) matches Ok(alternatives)
            &&& targets_from(c, switch, alternatives, blocks, other, 0, seq![]) matches Ok(targets)
            &&& other is Some == (switch.covered@.len() < alternatives.len())
            &&& fits(after) && alive(s) ==> {
                &&& waiting(s, after, all, 0)
                &&& ends_with(after.blocks, s.block->0, TerminatorView::Switch { union, targets })
            }
        },
{
    reveal(dispatched);
    lemma_steps();
    if let Ok(alternatives) = alternatives_of(
        c,
        switch.operand_union,
        "union identity names a non-union nominal",
        "union identity names a non-union type",
    ) {
        lemma_open_blocks(s, arms as int);
        let (s1, blocks) = open_blocks(s, arms as int);
        lemma_open(s1);
        let (s2, other) = if switch.covered@.len() < alternatives.len() {
            (open_block(s1).0, Some(open_block(s1).1))
        } else {
            (s1, None)
        };
        let all = match other {
            Some(block) => blocks.push(block),
            None => blocks,
        };
        assert(goes(s, s1)) by {
            reveal(goes);
        }
        if let Ok(targets) = targets_from(c, switch, alternatives, blocks, other, 0, seq![]) {
            lemma_finish(s2, TerminatorView::Switch { union, targets }, span);
            if let Ok((after, _)) = finish(s2, TerminatorView::Switch { union, targets }, span) {
                if fits(after) && alive(s) {
                    assert forall|j: int| 0 <= j < all.len() implies unfinished(after, #[trigger] all[j]) && all[j].0
                        >= s.blocks.len() && all[j].0 == s.blocks.len() + j by {
                        if j < arms {
                            assert(all[j] == blocks[j]);
                            assert(s1.blocks[s.blocks.len() + j].terminator is None);
                        }
                    }
                }
            }
        }
    }
}

#[verifier::rlimit(40)]
proof fn go_switch(c: Context, s: State, statement: &Statement)
    ensures
        switch_rule(c, s, statement) matches Ok((after, _)) ==> goes(s, after),
    decreases statement, 0int,
{
    lemma_steps();
    if let StatementKind::Switch { value, arms, else_body: other } = &statement.kind {
        if let Some(i) = only(c.semantic.switches@, statement.span) {
            let switch = c.semantic.switches@[i];
            go_operand(c, s, value);
            if let Ok((s1, Some(union))) = operand_rule(c, s, value) {
                lemma_dispatched(c, s1, switch, union, arms@.len(), value.span);
                if let Ok((s2, (blocks, rest))) = dispatched(c, s1, switch, union, arms@.len(), value.span) {
                    let outer = s2.narrowings;
                    let all = match rest {
                        Some(block) => blocks.push(block),
                        None => blocks,
                    };
                    go_arms(c, s1, s2, arms@, switch, union, blocks, outer, 0, seq![], all);
                    if let Ok((s3, paths)) = arms_from(c, s2, arms@, switch, union, blocks, outer, 0, seq![]) {
                        go_rest(c, s1, s3, rest, other, outer, paths, all, arms@.len() as int);
                        if let Ok((s4, ends)) = rest_rule(c, s3, rest, other, outer, paths) {
                            lemma_alike(s4, restored(s4, outer));
                            lemma_merged(s1, restored(s4, outer), ends);
                        }
                    }
                }
            }
        }
    }
}

#[verifier::rlimit(40)]
pub proof fn go_attempts(
    c: Context,
    base: State,
    s: State,
    r: TryResolution,
    alternatives: Seq<UnionAlternative>,
    operand: OperandView,
    result: LocalId,
    single: bool,
    blocks: Seq<BlockId>,
    from: int,
    paths: Seq<(BlockId, Span)>,
)
    requires
        0 <= from <= alternatives.len(),
        alternatives.len() == blocks.len(),
        goes(base, s),
        s.block is None,
        fits(s) && alive(base) ==> parked(base, s, paths) && waiting(base, s, blocks, from) && clear(
            paths,
            blocks,
            from,
        ),
    ensures
        attempted_from(c, s, r, alternatives, operand, result, single, blocks, from, paths) matches Ok((after, ends))
            ==> {
            &&& goes(base, after)
            &&& after.block is None
            &&& s.blocks.len() <= after.blocks.len()
            &&& fits(after) && alive(base) ==> parked(base, after, ends)
        },
    decreases alternatives.len() - from,
{
    lemma_steps();
    lemma_leaves(c);
    if from < alternatives.len() {
        let alternative = alternatives[from]@;
        let start = entered(s, blocks[from]);
        if let Ok(id) = alternative_id(c, r.operand_union, alternative) {
            if let Ok((s1, local)) = temporary(c, start, payload_of(alternative)) {
                let first = OperationView::UnionPayload { destination: local, union: operand, alternative: id };
                if let Ok((s2, _)) = emit(s1, first, r.operator_span) {
                    if alternatives[from] is Error {
                        goes_errored(c, s2, r, alternative, value_of(local));
                        if let Ok((s3, _)) = errored(c, s2, r, alternative, value_of(local)) {
                            lemma_way(base, s, blocks, from, start, s3, paths, r.operator_span);
                            assert(s.blocks.len() <= s3.blocks.len()) by {
                                reveal(goes);
                            }
                            go_attempts(
                                c,
                                base,
                                s3,
                                r,
                                alternatives,
                                operand,
                                result,
                                single,
                                blocks,
                                from + 1,
                                paths,
                            );
                        }
                    } else {
                        flat_succeeded(c, s2, r, alternative, value_of(local), result, single);
                        if let Ok((s3, _)) = succeeded(c, s2, r, alternative, value_of(local), result, single) {
                            lemma_way(base, s, blocks, from, start, s3, paths, r.operator_span);
                            assert(s.blocks.len() <= s3.blocks.len()) by {
                                reveal(goes);
                            }
                            let more = with_path(paths, s3, r.operator_span);
                            go_attempts(
                                c,
                                base,
                                left(s3),
                                r,
                                alternatives,
                                operand,
                                result,
                                single,
                                blocks,
                                from + 1,
                                more,
                            );
                        }
                    }
                }
            }
        }
    }
}

#[verifier::rlimit(40)]
proof fn go_attempted(c: Context, s: State, expression: Span, value: Span, operand: OperandView)
    ensures
        attempted(c, s, expression, value, operand) matches Ok((after, _)) ==> goes(s, after),
{
    reveal(attempted);
    lemma_steps();
    lemma_leaves(c);
    if let Some(i) = only(c.semantic.tries@, expression) {
        let r = c.semantic.tries@[i];
        if let Ok(alternatives) = alternatives_of(
            c,
            r.operand_union,
            "union identity names a non-union nominal",
            "union identity names a non-union type",
        ) {
            if let Ok((s1, result)) = temporary(c, s, try_type(r)) {
                let count = alternatives.len() as int;
                lemma_open_blocks(s1, count);
                let (s2, blocks) = open_blocks(s1, count);
                assert(goes(s1, s2)) by {
                    reveal(goes);
                }
                if let Ok(targets) = exits_from(c, r.operand_union, alternatives, blocks, 0, seq![]) {
                    let end = TerminatorView::Switch { union: operand, targets };
                    lemma_finish(s2, end, r.operator_span);
                    if let Ok((s3, _)) = finish(s2, end, r.operator_span) {
                        let single = successes_count(alternatives, count) == 1;
                        if fits(s3) && alive(s) {
                            assert(alive(s1)) by {
                                reveal(goes);
                            }
                            assert forall|j: int| 0 <= j < blocks.len() implies unfinished(s3, #[trigger] blocks[j])
                                && blocks[j].0 >= s.blocks.len() && blocks[j].0 == s1.blocks.len() + j by {
                                assert(s2.blocks[s1.blocks.len() + j].terminator is None);
                                assert(s.blocks.len() <= s1.blocks.len()) by {
                                    reveal(goes);
                                }
                            }
                        }
                        go_attempts(c, s, s3, r, alternatives, operand, result, single, blocks, 0, seq![]);
                        if let Ok((s4, paths)) = attempted_from(
                            c,
                            s3,
                            r,
                            alternatives,
                            operand,
                            result,
                            single,
                            blocks,
                            0,
                            seq![],
                        ) {
                            lemma_merged(s, s4, paths);
                        }
                    }
                }
            }
        }
    }
}

/// Where a `for` loop begins: its blocks are new and wait, and control goes to the header.
#[verifier::rlimit(40)]
pub proof fn lemma_iteration_begun(
    c: Context,
    s: State,
    binding_type: SourceType,
    element: LocalId,
    iterable: OperandView,
    iterable_span: Span,
    span: Span,
)
    ensures
        iteration_begun(c, s, binding_type, element, iterable, iterable_span, span) matches Ok((after, it)) ==> {
            &&& goes(s, after)
            &&& after.block is None
            &&& after.loops == s.loops
            &&& s.block is Some
            &&& it.element == element
            &&& it.iterable == iterable
            &&& after.blocks.len() == s.blocks.len() + 5
            &&& fits(after) && alive(s) ==> {
                &&& it.header.0 == s.blocks.len()
                &&& it.body.0 == s.blocks.len() + 1
                &&& it.advance.0 == s.blocks.len() + 2
                &&& it.cleanup.0 == s.blocks.len() + 3
                &&& it.exit.0 == s.blocks.len() + 4
                &&& ends_with(after.blocks, s.block->0, TerminatorView::Jump(it.header))
                &&& forall|b: int|
                    s.blocks.len() <= b < after.blocks.len() ==> #[trigger] after.blocks[b] == (BlockView {
                        operations: seq![],
                        terminator: None,
                    })
            }
        },
{
    reveal(iteration_begun);
    lemma_steps();
    lemma_leaves(c);
    let int_type = primitive_type(PrimitiveType::Int);
    if let Ok(ty) = source_type(c, s, iterable) {
        if let Ok((element_type, method)) = elements_of(c, ty) {
            if let Ok((s1, length)) = temporary(c, s, int_type) {
                if let Ok((s2, index)) = temporary(c, s1, int_type) {
                    if let Ok((s3, _)) = emit(s2, OperationView::BeginIteration { iterable }, iterable_span) {
                        let ask = OperationView::Builtin {
                            destination: length,
                            method,
                            receiver: iterable,
                            arguments: seq![],
                            failure: None,
                        };
                        if let Ok((s4, _)) = emit(s3, ask, iterable_span) {
                            if let Ok(zero) = constant(c, int_type, ConstantView::Integer(0)) {
                                let set = OperationView::Assign { destination: whole(index), value: zero };
                                if let Ok((s5, _)) = emit(s4, set, span) {
                                    assert(flat(s, s5));
                                    lemma_begun(s, s5, span);
                                }
                            }
                        }
                    }
                }
            }
        }
    }
}

/// Five new blocks, of which the first is where control goes.
#[verifier::rlimit(40)]
proof fn lemma_begun(s: State, s5: State, span: Span)
    requires
        flat(s, s5),
    ensures
        ({
            let (s6, header) = open_block(s5);
            let (s7, body) = open_block(s6);
            let (s8, advance) = open_block(s7);
            let (s9, cleanup) = open_block(s8);
            let (s10, exit) = open_block(s9);
            finish(s10, TerminatorView::Jump(header), span) matches Ok((after, _)) ==> {
                &&& goes(s, after)
                &&& after.block is None
                &&& after.loops == s.loops
                &&& s.block is Some
                &&& after.blocks.len() == s.blocks.len() + 5
                &&& fits(after) && alive(s) ==> {
                    &&& header.0 == s.blocks.len()
                    &&& body.0 == s.blocks.len() + 1
                    &&& advance.0 == s.blocks.len() + 2
                    &&& cleanup.0 == s.blocks.len() + 3
                    &&& exit.0 == s.blocks.len() + 4
                    &&& ends_with(after.blocks, s.block->0, TerminatorView::Jump(header))
                    &&& forall|b: int|
                        s.blocks.len() <= b < after.blocks.len() ==> #[trigger] after.blocks[b] == (BlockView {
                            operations: seq![],
                            terminator: None,
                        })
                }
            }
        }),
{
    lemma_steps();
    lemma_open(s5);
    let (s6, header) = open_block(s5);
    lemma_open(s6);
    let (s7, body) = open_block(s6);
    lemma_open(s7);
    let (s8, advance) = open_block(s7);
    lemma_open(s8);
    let (s9, cleanup) = open_block(s8);
    lemma_open(s9);
    let (s10, exit) = open_block(s9);
    lemma_finish(s10, TerminatorView::Jump(header), span);
    reveal(flat);
}

/// How a `for` loop is laid out: what is iterated over has come to its value in `begun`; the body is lowered from `body`
/// to `end`, and `after` is what follows.
pub open spec fn for_laid(begun: State, span: Span, it: Iteration, body: State, end: State, after: State) -> bool {
    &&& begun.block is Some
    &&& body.block == Some(it.body)
    &&& after.block == Some(it.exit)
    &&& ends_with(after.blocks, begun.block->0, TerminatorView::Jump(it.header))
    &&& after.blocks[it.header.0 as int].operations.len() == 1
    &&& after.blocks[it.header.0 as int].operations[0].0 matches OperationView::Binary {
        destination,
        operator,
        left,
        right,
    }
    &&& operator == BinaryOperator::Less
    &&& left == value_of(it.index)
    &&& right == value_of(it.length)
    &&& ends_with(
        after.blocks,
        it.header,
        TerminatorView::Branch { condition: value_of(destination), then_block: it.body, else_block: it.cleanup },
    )
    &&& body.blocks[it.body.0 as int].operations.len() == 1
    &&& body.blocks[it.body.0 as int].operations[0].0 == (OperationView::IterationValue {
        destination: it.element,
        iterable: it.iterable,
        index: value_of(it.index),
    })
    &&& body.loops == begun.loops.push(
        LoopView {
            source: span,
            continue_target: it.advance,
            break_target: it.cleanup,
            cleanup: Some(it.iterable),
        },
    )
    &&& end.block matches Some(last) ==> ends_with(after.blocks, last, TerminatorView::Jump(it.advance))
    &&& ends_with(after.blocks, it.advance, TerminatorView::Jump(it.header))
    &&& after.blocks[it.advance.0 as int].operations.len() == 2
    &&& after.blocks[it.advance.0 as int].operations[1].0 matches OperationView::Binary {
        destination: next,
        operator: step,
        left: from,
        right: by,
    }
    &&& next == it.index
    &&& step == BinaryOperator::Add
    &&& from == value_of(it.index)
    &&& by matches OperandView::Constant { value: ConstantView::Integer(1), .. }
    &&& after.blocks[it.cleanup.0 as int].operations.len() == 1
    &&& after.blocks[it.cleanup.0 as int].operations[0].0 == (OperationView::EndIteration { iterable: it.iterable })
    &&& ends_with(after.blocks, it.cleanup, TerminatorView::Jump(it.exit))
}

/// The header and the start of the body of a `for` loop.
#[verifier::rlimit(60)]
proof fn lemma_iteration_entered(c: Context, s: State, it: Iteration, span: Span)
    ensures
        iteration_entered(c, s, it, span) matches Ok((after, _)) ==> {
            &&& after.blocks.len() == s.blocks.len()
            &&& after.block == Some(it.body)
            &&& after.loops == s.loops.push(
                LoopView {
                    source: span,
                    continue_target: it.advance,
                    break_target: it.cleanup,
                    cleanup: Some(it.iterable),
                },
            )
            &&& it.header != it.body && it.header.0 < s.blocks.len() && it.body.0 < s.blocks.len() ==> {
                &&& forall|b: int|
                    0 <= b < s.blocks.len() && b != it.header.0 && b != it.body.0 ==> #[trigger] after.blocks[b]
                        == s.blocks[b]
                &&& after.blocks[it.body.0 as int].terminator == s.blocks[it.body.0 as int].terminator
                &&& after.blocks[it.body.0 as int].operations == s.blocks[it.body.0 as int].operations.push(
                    (
                        OperationView::IterationValue {
                            destination: it.element,
                            iterable: it.iterable,
                            index: value_of(it.index),
                        },
                        after.blocks[it.body.0 as int].operations.last().1,
                    ),
                )
                &&& after.blocks[it.header.0 as int].operations.len() == s.blocks[it.header.0 as int].operations.len()
                    + 1
                &&& after.blocks[it.header.0 as int].operations.last().0 matches OperationView::Binary {
                    destination,
                    operator,
                    left,
                    right,
                }
                &&& operator == BinaryOperator::Less
                &&& left == value_of(it.index)
                &&& right == value_of(it.length)
                &&& ends_with(
                    after.blocks,
                    it.header,
                    TerminatorView::Branch {
                        condition: value_of(destination),
                        then_block: it.body,
                        else_block: it.cleanup,
                    },
                )
            }
        },
{
    reveal(iteration_entered);
    reveal(emit);
    reveal(temporary);
    reveal(declare);
    reveal(looping);
    if let Ok((after, _)) = iteration_entered(c, s, it, span) {
        let (s1, condition) = temporary(c, entered(s, it.header), primitive_type(PrimitiveType::Bool))->Ok_0;
        lemma_located(s1, span);
        let first = OperationView::Binary {
            destination: condition,
            operator: BinaryOperator::Less,
            left: value_of(it.index),
            right: value_of(it.length),
        };
        let s2 = emit(s1, first, span)->Ok_0.0;
        let end = TerminatorView::Branch {
            condition: value_of(condition),
            then_block: it.body,
            else_block: it.cleanup,
        };
        lemma_finish(s2, end, span);
        let s3 = finish(s2, end, span)->Ok_0.0;
        let s4 = entered(
            looping(
                s3,
                LoopView {
                    source: span,
                    continue_target: it.advance,
                    break_target: it.cleanup,
                    cleanup: Some(it.iterable),
                },
            ),
            it.body,
        );
        lemma_located(s4, span);
    }
}

/// The rest of a `for` loop: the step to the next element, and the end of the iteration.
#[verifier::rlimit(60)]
proof fn lemma_iteration_ended(c: Context, s: State, it: Iteration, span: Span)
    ensures
        iteration_ended(c, s, it, span) matches Ok((after, _)) ==> {
            &&& after.blocks.len() == s.blocks.len()
            &&& after.block == Some(it.exit)
            &&& after.loops == s.loops
            &&& it.advance != it.cleanup && it.advance.0 < s.blocks.len() && it.cleanup.0 < s.blocks.len() ==> {
                &&& forall|b: int|
                    0 <= b < s.blocks.len() && b != it.advance.0 && b != it.cleanup.0 ==> #[trigger] after.blocks[b]
                        == s.blocks[b]
                &&& ends_with(after.blocks, it.advance, TerminatorView::Jump(it.header))
                &&& after.blocks[it.advance.0 as int].operations.len()
                    == s.blocks[it.advance.0 as int].operations.len() + 2
                &&& after.blocks[it.advance.0 as int].operations.last().0 matches OperationView::Binary {
                    destination: next,
                    operator: step,
                    left: from,
                    right: by,
                }
                &&& next == it.index
                &&& step == BinaryOperator::Add
                &&& from == value_of(it.index)
                &&& by matches OperandView::Constant { value: ConstantView::Integer(1), .. }
                &&& after.blocks[it.cleanup.0 as int].operations.len()
                    == s.blocks[it.cleanup.0 as int].operations.len() + 1
                &&& after.blocks[it.cleanup.0 as int].operations.last().0 == (OperationView::EndIteration {
                    iterable: it.iterable,
                })
                &&& ends_with(after.blocks, it.cleanup, TerminatorView::Jump(it.exit))
            }
        },
{
    reveal(iteration_ended);
    reveal(emit);
    reveal(constant);
    lemma_leaves(c);
    if let Ok((after, _)) = iteration_ended(c, s, it, span) {
        let one = constant(c, primitive_type(PrimitiveType::Int), ConstantView::Integer(1))->Ok_0;
        let (s1, failure) = fail(c, entered(s, it.advance), span, FailureOperation::IntegerAdd)->Ok_0;
        assert(s1.blocks == s.blocks && s1.block == Some(it.advance) && s1.loops == s.loops) by {
            reveal(fail);
            lemma_located(entered(s, it.advance), span);
        }
        lemma_located(s1, span);
        let check = OperationView::Check(
            CheckView::IntegerOverflow {
                operation: IntegerOperation::Add,
                left: value_of(it.index),
                right: one,
                failure,
            },
        );
        let s2 = emit(s1, check, span)->Ok_0.0;
        lemma_located(s2, span);
        let add = OperationView::Binary {
            destination: it.index,
            operator: BinaryOperator::Add,
            left: value_of(it.index),
            right: one,
        };
        let s3 = emit(s2, add, span)->Ok_0.0;
        lemma_finish(s3, TerminatorView::Jump(it.header), span);
        let s4 = finish(s3, TerminatorView::Jump(it.header), span)->Ok_0.0;
        lemma_located(entered(s4, it.cleanup), span);
        let s5 = emit(
            entered(s4, it.cleanup),
            OperationView::EndIteration { iterable: it.iterable },
            span,
        )->Ok_0.0;
        lemma_finish(s5, TerminatorView::Jump(it.exit), span);
    }
}

/// A `for` loop in the code that it becomes.
#[verifier::rlimit(60)]
pub proof fn lemma_for(c: Context, s: State, statement: &Statement) -> (laid: (State, State, Iteration, State, State))
    ensures
        match (&statement.kind, for_rule(c, s, statement)) {
            (StatementKind::For { binding, iterable, body }, Ok((after, _))) => {
                &&& flat(s, laid.0)
                &&& match operand_rule(c, laid.0, iterable) {
                    Ok((begun, Some(operand))) => {
                        &&& begun == laid.1
                        &&& laid.2.iterable == operand
                        &&& statement_body_rule(c, laid.3, body) == Ok::<(State, ()), &'static str>((laid.4, ()))
                        &&& goes(laid.3, laid.4) ==> goes(begun, after)
                        &&& goes(laid.3, laid.4) && fits(after) && alive(begun) ==> for_laid(
                            begun,
                            statement.span,
                            laid.2,
                            laid.3,
                            laid.4,
                            after,
                        )
                    },
                    Ok((begun, None)) => after == begun,
                    Err(_) => false,
                }
            },
            _ => true,
        },
{
    let mut laid = (s, s, arbitrary(), s, s);
    if let StatementKind::For { binding, iterable, body } = &statement.kind {
        flat_element_declared(c, s, binding.span, statement.span);
        if let Ok((s0, (element, binding_type))) = element_declared(c, s, binding.span, statement.span) {
            laid = (s0, s, arbitrary(), s, s);
            if let Ok((begun, Some(operand))) = operand_rule(c, s0, iterable) {
                let span = statement.span;
                lemma_iteration_begun(c, begun, binding_type, element, operand, iterable.span, span);
                if let Ok((s1, it)) = iteration_begun(c, begun, binding_type, element, operand, iterable.span, span) {
                    lemma_iteration_entered(c, s1, it, span);
                    if let Ok((first, _)) = iteration_entered(c, s1, it, span) {
                        if let Ok((last, _)) = statement_body_rule(c, first, body) {
                            lemma_closed_loop(last, s1.narrowings, it.advance, body.span);
                            if let Ok((closed, _)) = closed_loop(last, s1.narrowings, it.advance, body.span) {
                                lemma_iteration_ended(c, closed, it, span);
                                laid = (s0, begun, it, first, last);
                                if let Ok((after, _)) = iteration_ended(c, closed, it, span) {
                                    lemma_for_done(begun, s1, it, first, last, closed, after, span);
                                }
                            }
                        }
                    }
                }
            }
        }
    }
    laid
}

proof fn go_for(c: Context, s: State, statement: &Statement)
    ensures
        for_rule(c, s, statement) matches Ok((after, _)) ==> goes(s, after),
    decreases statement, 0int,
{
    lemma_steps();
    let laid = lemma_for(c, s, statement);
    if let StatementKind::For { binding, iterable, body } = &statement.kind {
        go_operand(c, laid.0, iterable);
        go_statement_body(c, laid.3, body);
    }
}

#[verifier::rlimit(80)]
proof fn lemma_for_done(
    begun: State,
    s1: State,
    it: Iteration,
    first: State,
    last: State,
    closed: State,
    after: State,
    span: Span,
)
    requires
        goes(begun, s1),
        s1.loops == begun.loops,
        s1.block is None,
        begun.block is Some,
        s1.blocks.len() == begun.blocks.len() + 5,
        fits(s1) && alive(begun) ==> {
            &&& it.header.0 == begun.blocks.len()
            &&& it.body.0 == begun.blocks.len() + 1
            &&& it.advance.0 == begun.blocks.len() + 2
            &&& it.cleanup.0 == begun.blocks.len() + 3
            &&& it.exit.0 == begun.blocks.len() + 4
            &&& ends_with(s1.blocks, begun.block->0, TerminatorView::Jump(it.header))
            &&& forall|b: int|
                begun.blocks.len() <= b < s1.blocks.len() ==> #[trigger] s1.blocks[b] == (BlockView {
                    operations: seq![],
                    terminator: None,
                })
        },
        first.blocks.len() == s1.blocks.len(),
        first.block == Some(it.body),
        first.loops == s1.loops.push(
            LoopView {
                source: span,
                continue_target: it.advance,
                break_target: it.cleanup,
                cleanup: Some(it.iterable),
            },
        ),
        it.header != it.body && it.header.0 < s1.blocks.len() && it.body.0 < s1.blocks.len() ==> {
            &&& forall|b: int|
                0 <= b < s1.blocks.len() && b != it.header.0 && b != it.body.0 ==> #[trigger] first.blocks[b]
                    == s1.blocks[b]
            &&& first.blocks[it.body.0 as int].terminator == s1.blocks[it.body.0 as int].terminator
            &&& first.blocks[it.body.0 as int].operations == s1.blocks[it.body.0 as int].operations.push(
                (
                    OperationView::IterationValue {
                        destination: it.element,
                        iterable: it.iterable,
                        index: value_of(it.index),
                    },
                    first.blocks[it.body.0 as int].operations.last().1,
                ),
            )
            &&& first.blocks[it.header.0 as int].operations.len() == s1.blocks[it.header.0 as int].operations.len() + 1
            &&& first.blocks[it.header.0 as int].operations.last().0 matches OperationView::Binary {
                destination,
                operator,
                left,
                right,
            }
            &&& operator == BinaryOperator::Less
            &&& left == value_of(it.index)
            &&& right == value_of(it.length)
            &&& ends_with(
                first.blocks,
                it.header,
                TerminatorView::Branch {
                    condition: value_of(destination),
                    then_block: it.body,
                    else_block: it.cleanup,
                },
            )
        },
        closed.block is None,
        closed.blocks.len() == last.blocks.len(),
        closed.loops == if last.loops.len() > 0 {
            last.loops.drop_last()
        } else {
            last.loops
        },
        forall|b: int|
            0 <= b < last.blocks.len() ==> (#[trigger] closed.blocks[b]).operations == last.blocks[b].operations && (!at(
                last.block,
                b,
            ) ==> closed.blocks[b] == last.blocks[b]),
        last.block matches Some(block) ==> ends_with(closed.blocks, block, TerminatorView::Jump(it.advance)),
        after.blocks.len() == closed.blocks.len(),
        after.block == Some(it.exit),
        after.loops == closed.loops,
        it.advance != it.cleanup && it.advance.0 < closed.blocks.len() && it.cleanup.0 < closed.blocks.len() ==> {
            &&& forall|b: int|
                0 <= b < closed.blocks.len() && b != it.advance.0 && b != it.cleanup.0 ==> #[trigger] after.blocks[b]
                    == closed.blocks[b]
            &&& ends_with(after.blocks, it.advance, TerminatorView::Jump(it.header))
            &&& after.blocks[it.advance.0 as int].operations.len()
                == closed.blocks[it.advance.0 as int].operations.len() + 2
            &&& after.blocks[it.advance.0 as int].operations.last().0 matches OperationView::Binary {
                destination: next,
                operator: step,
                left: from,
                right: by,
            }
            &&& next == it.index
            &&& step == BinaryOperator::Add
            &&& from == value_of(it.index)
            &&& by matches OperandView::Constant { value: ConstantView::Integer(1), .. }
            &&& after.blocks[it.cleanup.0 as int].operations.len()
                == closed.blocks[it.cleanup.0 as int].operations.len() + 1
            &&& after.blocks[it.cleanup.0 as int].operations.last().0 == (OperationView::EndIteration {
                iterable: it.iterable,
            })
            &&& ends_with(after.blocks, it.cleanup, TerminatorView::Jump(it.exit))
        },
    ensures
        goes(first, last) ==> goes(begun, after),
        goes(first, last) && fits(after) && alive(begun) ==> for_laid(begun, span, it, first, last, after),
{
    reveal(goes);
    if goes(first, last) && fits(after) && alive(begun) {
        assert(fits(s1));
        assert(alive(first));
        assert(last.loops == first.loops);
        assert(first.loops.drop_last() == begun.loops);
        assert(last.blocks[it.header.0 as int] == first.blocks[it.header.0 as int]);
        assert(last.blocks[it.advance.0 as int] == first.blocks[it.advance.0 as int]);
        assert(last.blocks[it.cleanup.0 as int] == first.blocks[it.cleanup.0 as int]);
        assert(last.blocks[it.exit.0 as int] == first.blocks[it.exit.0 as int]);
        assert(closed.blocks[it.header.0 as int] == last.blocks[it.header.0 as int]);
        assert(closed.blocks[it.advance.0 as int] == last.blocks[it.advance.0 as int]);
        assert(closed.blocks[it.cleanup.0 as int] == last.blocks[it.cleanup.0 as int]);
        assert(closed.blocks[it.exit.0 as int] == last.blocks[it.exit.0 as int]);
        assert(after.blocks[it.header.0 as int] == closed.blocks[it.header.0 as int]);
        assert(after.blocks[it.exit.0 as int] == closed.blocks[it.exit.0 as int]);
        assert forall|b: int| 0 <= b < begun.blocks.len() implies #[trigger] after.blocks[b] == s1.blocks[b] by {
            assert(first.blocks[b] == s1.blocks[b]);
            assert(last.blocks[b] == first.blocks[b]);
            assert(closed.blocks[b] == last.blocks[b]);
        }
        assert(after.blocks[(begun.block->0).0 as int] == s1.blocks[(begun.block->0).0 as int]);
        assert forall|b: int| 0 <= b < begun.blocks.len() implies longer(
            begun.blocks[b].operations,
            (#[trigger] after.blocks[b]).operations,
        ) && (!at(begun.block, b) ==> after.blocks[b] == begun.blocks[b]) by {
            assert(after.blocks[b] == s1.blocks[b]);
        }
        if let Some(block) = last.block {
            assert(after.blocks[block.0 as int] == closed.blocks[block.0 as int]);
        }
    }
}

} // verus!
