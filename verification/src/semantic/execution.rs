//! What can happen when a part of a program runs, and that the summaries of its flow tell just that.
//!
//! Conditions can come out either way, a loop can run any number of times, and a `switch` can come to any of its arms.

use crate::analysis::{
    Analysis, CallTarget, CallableId, FunctionId, FunctionSignature, IntrinsicId, TypeState, latest_before,
    unit_type,
};
use crate::ast::{
    Argument, ArgumentKind, AssignmentTarget, AssignmentTargetSuffix, AssignmentTargetSuffixKind,
    BinaryOperator, Block, ConditionalExpressionBranch, ConditionalStatementBranch, Expression, ExpressionBody,
    ExpressionBodyKind, ExpressionKind, MapEntry, Statement, StatementBody, StatementBodyKind, StatementKind,
    SwitchArm,
};
use crate::semantic::{
    FlowSubject, SemanticResult, SwitchResolution, TryAction, TryResolution, after_unions, analyzed,
    before_flow, flow_context,
};
use crate::semantic::flow::{
    FallthroughKind, FlowView, alternatives_flow, any_fallthrough, any_flags, dependent_flow, fallthrough_flow,
    sequence_flow,
};
use crate::semantic::flow_rules::{
    FlowContext, FlowState, Progress, advanced, argument_flow, arguments_flow, arm_flow, arms_flow, at_start,
    block_flow, branch_flow, branches_flow, choice_flow, choices_flow, complained, control_flow, decided,
    else_flow, ended, entries_flow, entry_flow, exhaustive, expression_body_flow, expression_core_flow,
    expression_flow, expressions_flow, first_fact, function_flow, functions_flow, in_loop, local_typed,
    loop_flow, noted, out_of_loop, panics, put_off, return_noted, statement_body_flow, statement_core_flow,
    statement_flow, statements_flow, suffix_flow, suffixes_flow, target_flow, tried_flow, unit_alternative,
    value_flow, warned,
};
use crate::semantic::mutability::mutability_rule;
use crate::source::Span;
use vstd::prelude::*;

verus! {

/// A way in which control can leave a part of a program.
pub enum Way {
    /// At its end.
    Ends,
    /// Out of the function.
    Returns,
    /// Out of the innermost loop.
    Breaks,
    /// To the next run of the innermost loop.
    Continues,
    /// Out of the program.
    Stops,
}

/// Whether the latest of what is known of a call is that it ends the program.
pub open spec fn stops_program(c: FlowContext, call: Span) -> bool {
    exists|i: int|
        0 <= i < c.calls.len() && (#[trigger] c.calls[i]).node == call && c.calls[i].target == CallTarget::Callable(
            CallableId::Intrinsic(IntrinsicId::Panic),
        ) && forall|j: int| i < j < c.calls.len() ==> (#[trigger] c.calls[j]).node != call
}

/// Whether the first fact about a `switch` is the one at an index.
pub open spec fn first_switch(switches: Seq<SwitchResolution>, statement: Span, i: int) -> bool {
    &&& 0 <= i < switches.len()
    &&& switches[i].statement == statement
    &&& forall|j: int| 0 <= j < i ==> (#[trigger] switches[j]).statement != statement
}

/// Whether a `switch` is known to have an arm for every value.
pub open spec fn covers_all(c: FlowContext, statement: Span) -> bool {
    exists|i: int| #[trigger] first_switch(c.switches, statement, i) && c.switches[i].exhaustive
}

/// Whether the first fact about a `?` is the one at an index.
pub open spec fn first_try(tries: Seq<TryResolution>, expression: Span, i: int) -> bool {
    &&& 0 <= i < tries.len()
    &&& tries[i].expression == expression
    &&& forall|j: int| 0 <= j < i ==> (#[trigger] tries[j]).expression != expression
}

/// Where a `?` goes with an error.
pub open spec fn try_may(c: FlowContext, expression: Span, way: Way) -> bool {
    exists|i: int| #[trigger]
        first_try(c.tries, expression, i) && match c.tries[i].action {
            TryAction::Propagate { .. } => way is Returns,
            TryAction::Panic { .. } => way is Stops,
        }
}

/// One part and then another.
pub open spec fn after(
    first: spec_fn(bool, Way) -> bool, next: spec_fn(bool,
    Way) -> bool, trusting: bool, way: Way,
) -> bool {
    (!(way is Ends) && first(trusting, way)) || (first(trusting, Way::Ends) && next(trusting, way))
}

/// Whether a statement can be left in a way. `trusting` is to say that every `switch` without `else` has an arm for
/// every value, and `inside` that the statement stands in a loop.
#[verifier::opaque]
pub open spec fn statement_may(c: FlowContext, trusting: bool, inside: bool, statement: &Statement, way: Way) -> bool
    decreases statement, 0int, 0int,
{
    match &statement.kind {
        StatementKind::Local { initializer, .. } => expression_may(c, trusting, inside, initializer, way),
        StatementKind::Assignment { target, value, .. } => {
            ||| !(way is Ends) && target_may(c, trusting, inside, target, way)
            ||| target_may(c, trusting, inside, target, Way::Ends) && expression_may(c, trusting, inside, value, way)
        },
        StatementKind::Expression(expression) => expression_may(c, trusting, inside, expression, way),
        StatementKind::Return(value) => match way {
            Way::Ends => false,
            Way::Returns => value_may(c, trusting, inside, value, Way::Ends) || value_may(c, trusting, inside, value, way),
            _ => value_may(c, trusting, inside, value, way),
        },
        StatementKind::Break => if inside {
            way is Breaks
        } else {
            way is Ends
        },
        StatementKind::Continue => if inside {
            way is Continues
        } else {
            way is Ends
        },
        StatementKind::If { branches, else_body } => {
            ||| tested_may(c, trusting, inside, branches@, branches@.len() as int, way)
            ||| bodies_may(c, trusting, inside, branches@, branches@.len() as int, way)
            ||| conditions_end(c, trusting, inside, branches@, branches@.len() as int) && else_may(c, trusting, inside, else_body, way)
        },
        StatementKind::While { condition, body } => {
            ||| !(way is Ends) && expression_may(c, trusting, inside, condition, way)
            ||| expression_may(c, trusting, inside, condition, Way::Ends) && (way is Ends || ((way is Returns || way is Stops)
                && statement_body_may(c, trusting, true, body, way)))
        },
        StatementKind::For { iterable, body, .. } => {
            ||| !(way is Ends) && expression_may(c, trusting, inside, iterable, way)
            ||| expression_may(c, trusting, inside, iterable, Way::Ends) && (way is Ends || ((way is Returns || way is Stops)
                && statement_body_may(c, trusting, true, body, way)))
        },
        StatementKind::Switch { value, arms, else_body } => {
            ||| !(way is Ends) && expression_may(c, trusting, inside, value, way)
            ||| expression_may(c, trusting, inside, value, Way::Ends) && {
                ||| arms_may(c, trusting, inside, arms@, arms@.len() as int, way)
                ||| else_body is Some && else_may(c, trusting, inside, else_body, way)
                ||| else_body is None && way is Ends && !trusting && !covers_all(c, statement.span)
            }
        },
        StatementKind::Block(block) => block_may(c, trusting, inside, block, way),
    }
}

/// Whether all of the first `count` conditions can come out false.
#[verifier::opaque]
pub open spec fn conditions_end(
    c: FlowContext,
    trusting: bool,
    inside: bool,
    branches: Seq<ConditionalStatementBranch>,
    count: int,
) -> bool
    decreases branches, 3int, count,
{
    if count <= 0 || count > branches.len() {
        true
    } else {
        conditions_end(c, trusting, inside, branches, count - 1) && expression_may(
            c,
            trusting,
            inside,
            &branches[count - 1].condition,
            Way::Ends,
        )
    }
}

/// Whether control can be lost in one of the first `count` conditions.
#[verifier::opaque]
pub open spec fn tested_may(
    c: FlowContext,
    trusting: bool,
    inside: bool,
    branches: Seq<ConditionalStatementBranch>,
    count: int,
    way: Way,
) -> bool
    decreases branches, 4int, count,
{
    if count <= 0 || count > branches.len() {
        false
    } else {
        ||| tested_may(c, trusting, inside, branches, count - 1, way)
        ||| !(way is Ends) && conditions_end(c, trusting, inside, branches, count - 1) && expression_may(
            c,
            trusting,
            inside,
            &branches[count - 1].condition,
            way,
        )
    }
}

/// Whether the body of one of the first `count` branches can be come to, and left in a way.
#[verifier::opaque]
pub open spec fn bodies_may(
    c: FlowContext,
    trusting: bool,
    inside: bool,
    branches: Seq<ConditionalStatementBranch>,
    count: int,
    way: Way,
) -> bool
    decreases branches, 4int, count,
{
    if count <= 0 || count > branches.len() {
        false
    } else {
        ||| bodies_may(c, trusting, inside, branches, count - 1, way)
        ||| conditions_end(c, trusting, inside, branches, count) && statement_body_may(
            c,
            trusting,
            inside,
            &branches[count - 1].body,
            way,
        )
    }
}

/// Whether all of the first `count` conditions can come out false.
#[verifier::opaque]
pub open spec fn choice_conditions_end(
    c: FlowContext,
    trusting: bool,
    inside: bool,
    branches: Seq<ConditionalExpressionBranch>,
    count: int,
) -> bool
    decreases branches, 3int, count,
{
    if count <= 0 || count > branches.len() {
        true
    } else {
        choice_conditions_end(c, trusting, inside, branches, count - 1) && expression_may(
            c,
            trusting,
            inside,
            &branches[count - 1].condition,
            Way::Ends,
        )
    }
}

/// Whether control can be lost in one of the first `count` conditions.
#[verifier::opaque]
pub open spec fn choice_tested_may(
    c: FlowContext,
    trusting: bool,
    inside: bool,
    branches: Seq<ConditionalExpressionBranch>,
    count: int,
    way: Way,
) -> bool
    decreases branches, 4int, count,
{
    if count <= 0 || count > branches.len() {
        false
    } else {
        ||| choice_tested_may(c, trusting, inside, branches, count - 1, way)
        ||| !(way is Ends) && choice_conditions_end(c, trusting, inside, branches, count - 1) && expression_may(
            c,
            trusting,
            inside,
            &branches[count - 1].condition,
            way,
        )
    }
}

/// Whether the body of one of the first `count` branches can be come to, and left in a way.
#[verifier::opaque]
pub open spec fn choice_bodies_may(
    c: FlowContext,
    trusting: bool,
    inside: bool,
    branches: Seq<ConditionalExpressionBranch>,
    count: int,
    way: Way,
) -> bool
    decreases branches, 4int, count,
{
    if count <= 0 || count > branches.len() {
        false
    } else {
        ||| choice_bodies_may(c, trusting, inside, branches, count - 1, way)
        ||| choice_conditions_end(c, trusting, inside, branches, count) && expression_body_may(
            c,
            trusting,
            inside,
            &branches[count - 1].body,
            way,
        )
    }
}

/// Whether one of the first `count` arms can be left in a way.
#[verifier::opaque]
pub open spec fn arms_may(
    c: FlowContext,
    trusting: bool,
    inside: bool,
    arms: Seq<SwitchArm>,
    count: int,
    way: Way,
) -> bool
    decreases arms, 4int, count,
{
    if count <= 0 || count > arms.len() {
        false
    } else {
        ||| arms_may(c, trusting, inside, arms, count - 1, way)
        ||| statement_body_may(c, trusting, inside, &arms[count - 1].body, way)
    }
}

#[verifier::opaque]
pub open spec fn else_may(c: FlowContext, trusting: bool, inside: bool, body: &Option<StatementBody>, way: Way) -> bool
    decreases body, 0int, 0int,
{
    match body {
        Some(body) => statement_body_may(c, trusting, inside, body, way),
        None => way is Ends,
    }
}

#[verifier::opaque]
pub open spec fn value_may(c: FlowContext, trusting: bool, inside: bool, value: &Option<Expression>, way: Way) -> bool
    decreases value, 0int, 0int,
{
    match value {
        Some(value) => expression_may(c, trusting, inside, value, way),
        None => way is Ends,
    }
}

#[verifier::opaque]
pub open spec fn target_may(c: FlowContext, trusting: bool, inside: bool, target: &AssignmentTarget, way: Way) -> bool
    decreases target, 0int, 0int,
{
    suffixes_may(c, trusting, inside, target.suffixes@, 0, way)
}

#[verifier::opaque]
pub open spec fn suffix_may(
    c: FlowContext,
    trusting: bool,
    inside: bool,
    suffix: &AssignmentTargetSuffix,
    way: Way,
) -> bool
    decreases suffix, 0int, 0int,
{
    match &suffix.kind {
        AssignmentTargetSuffixKind::Index(index) => expression_may(c, trusting, inside, index, way),
        AssignmentTargetSuffixKind::Member(_) => way is Ends,
    }
}

#[verifier::opaque]
pub open spec fn suffixes_may(
    c: FlowContext,
    trusting: bool,
    inside: bool,
    all: Seq<AssignmentTargetSuffix>,
    from: int,
    way: Way,
) -> bool
    decreases all, 5int, all.len() - from,
{
    if from < 0 || from >= all.len() {
        way is Ends
    } else {
        ||| !(way is Ends) && suffix_may(c, trusting, inside, &all[from], way)
        ||| suffix_may(c, trusting, inside, &all[from], Way::Ends) && suffixes_may(c, trusting, inside, all, from + 1, way)
    }
}

#[verifier::opaque]
pub open spec fn statements_may(
    c: FlowContext,
    trusting: bool,
    inside: bool,
    all: Seq<Statement>,
    from: int,
    way: Way,
) -> bool
    decreases all, 5int, all.len() - from,
{
    if from < 0 || from >= all.len() {
        way is Ends
    } else {
        ||| !(way is Ends) && statement_may(c, trusting, inside, &all[from], way)
        ||| statement_may(c, trusting, inside, &all[from], Way::Ends) && statements_may(c, trusting, inside, all, from + 1, way)
    }
}

#[verifier::opaque]
pub open spec fn block_may(c: FlowContext, trusting: bool, inside: bool, block: &Block, way: Way) -> bool
    decreases block, 0int, 0int,
{
    ||| !(way is Ends) && statements_may(c, trusting, inside, block.statements@, 0, way)
    ||| statements_may(c, trusting, inside, block.statements@, 0, Way::Ends) && match &block.value {
        Some(value) => expression_may(c, trusting, inside, value, way),
        None => way is Ends,
    }
}

#[verifier::opaque]
pub open spec fn statement_body_may(
    c: FlowContext,
    trusting: bool,
    inside: bool,
    body: &StatementBody,
    way: Way,
) -> bool
    decreases body, 0int, 0int,
{
    match &body.kind {
        StatementBodyKind::Block(block) => block_may(c, trusting, inside, block, way),
        StatementBodyKind::Statement(statement) => statement_may(c, trusting, inside, statement, way),
    }
}

#[verifier::opaque]
pub open spec fn expression_body_may(
    c: FlowContext,
    trusting: bool,
    inside: bool,
    body: &ExpressionBody,
    way: Way,
) -> bool
    decreases body, 0int, 0int,
{
    match &body.kind {
        ExpressionBodyKind::Block(block) => block_may(c, trusting, inside, block, way),
        ExpressionBodyKind::Expression(expression) => expression_may(c, trusting, inside, expression, way),
    }
}

#[verifier::opaque]
pub open spec fn expressions_may(
    c: FlowContext,
    trusting: bool,
    inside: bool,
    all: Seq<Expression>,
    from: int,
    way: Way,
) -> bool
    decreases all, 5int, all.len() - from,
{
    if from < 0 || from >= all.len() {
        way is Ends
    } else {
        ||| !(way is Ends) && expression_may(c, trusting, inside, &all[from], way)
        ||| expression_may(c, trusting, inside, &all[from], Way::Ends) && expressions_may(c, trusting, inside, all, from + 1, way)
    }
}

#[verifier::opaque]
pub open spec fn entries_may(
    c: FlowContext,
    trusting: bool,
    inside: bool,
    all: Seq<MapEntry>,
    from: int,
    way: Way,
) -> bool
    decreases all, 5int, all.len() - from,
{
    if from < 0 || from >= all.len() {
        way is Ends
    } else {
        ||| !(way is Ends) && entry_may(c, trusting, inside, &all[from], way)
        ||| entry_may(c, trusting, inside, &all[from], Way::Ends) && entries_may(c, trusting, inside, all, from + 1, way)
    }
}

#[verifier::opaque]
pub open spec fn entry_may(c: FlowContext, trusting: bool, inside: bool, entry: &MapEntry, way: Way) -> bool
    decreases entry, 0int, 0int,
{
    ||| !(way is Ends) && expression_may(c, trusting, inside, &entry.key, way)
    ||| expression_may(c, trusting, inside, &entry.key, Way::Ends) && expression_may(c, trusting, inside, &entry.value, way)
}

#[verifier::opaque]
pub open spec fn arguments_may(
    c: FlowContext,
    trusting: bool,
    inside: bool,
    all: Seq<Argument>,
    from: int,
    way: Way,
) -> bool
    decreases all, 5int, all.len() - from,
{
    if from < 0 || from >= all.len() {
        way is Ends
    } else {
        ||| !(way is Ends) && argument_may(c, trusting, inside, &all[from], way)
        ||| argument_may(c, trusting, inside, &all[from], Way::Ends) && arguments_may(c, trusting, inside, all, from + 1, way)
    }
}

#[verifier::opaque]
pub open spec fn argument_may(c: FlowContext, trusting: bool, inside: bool, argument: &Argument, way: Way) -> bool
    decreases argument, 0int, 0int,
{
    match &argument.kind {
        ArgumentKind::Positional(value) => expression_may(c, trusting, inside, value, way),
        ArgumentKind::Named { value, .. } => expression_may(c, trusting, inside, value, way),
    }
}

#[verifier::opaque]
pub open spec fn expression_may(c: FlowContext, trusting: bool, inside: bool, e: &Expression, way: Way) -> bool
    decreases e, 0int, 0int,
{
    match &e.kind {
        ExpressionKind::Parenthesized(inner) => expression_may(c, trusting, inside, inner, way),
        ExpressionKind::Conversion { operand, .. } => expression_may(c, trusting, inside, operand, way),
        ExpressionKind::Unary { operand, .. } => expression_may(c, trusting, inside, operand, way),
        ExpressionKind::Member { value, .. } => expression_may(c, trusting, inside, value, way),
        ExpressionKind::Is { value, .. } => expression_may(c, trusting, inside, value, way),
        ExpressionKind::Try { value, .. } => {
            ||| expression_may(c, trusting, inside, value, way)
            ||| expression_may(c, trusting, inside, value, Way::Ends) && try_may(c, e.span, way)
        },
        ExpressionKind::List(elements) => expressions_may(c, trusting, inside, elements@, 0, way),
        ExpressionKind::Mapping(entries) => entries_may(c, trusting, inside, entries@, 0, way),
        ExpressionKind::Block(block) => block_may(c, trusting, inside, block, way),
        ExpressionKind::If { branches, else_branch } => {
            ||| choice_tested_may(c, trusting, inside, branches@, branches@.len() as int, way)
            ||| choice_bodies_may(c, trusting, inside, branches@, branches@.len() as int, way)
            ||| choice_conditions_end(c, trusting, inside, branches@, branches@.len() as int)
                && expression_body_may(c, trusting, inside, else_branch, way)
        },
        ExpressionKind::Binary { left, operator, right, .. } => if *operator == BinaryOperator::LogicalAnd || *operator
            == BinaryOperator::LogicalOr {
            ||| expression_may(c, trusting, inside, left, way)
            ||| !(way is Ends) && expression_may(c, trusting, inside, left, Way::Ends) && expression_may(c, trusting, inside, right, way)
        } else {
            ||| !(way is Ends) && expression_may(c, trusting, inside, left, way)
            ||| expression_may(c, trusting, inside, left, Way::Ends) && expression_may(c, trusting, inside, right, way)
        },
        ExpressionKind::Index { value, index } => {
            ||| !(way is Ends) && expression_may(c, trusting, inside, value, way)
            ||| expression_may(c, trusting, inside, value, Way::Ends) && expression_may(c, trusting, inside, index, way)
        },
        ExpressionKind::Call { callee, arguments } => if stops_program(c, e.span) {
            match way {
                Way::Ends => false,
                Way::Stops => (expression_may(c, trusting, inside, callee, Way::Ends) && arguments_may(
                    c,
                    trusting,
                    inside,
                    arguments@,
                    0,
                    Way::Ends,
                )) || ((!(way is Ends) && expression_may(c, trusting, inside, callee, way)) || (expression_may(
                    c,
                    trusting,
                    inside,
                    callee,
                    Way::Ends,
                ) && arguments_may(c, trusting, inside, arguments@, 0, way))),
                _ => ((!(way is Ends) && expression_may(c, trusting, inside, callee, way)) || (expression_may(
                    c,
                    trusting,
                    inside,
                    callee,
                    Way::Ends,
                ) && arguments_may(c, trusting, inside, arguments@, 0, way))),
            }
        } else {
            ((!(way is Ends) && expression_may(c, trusting, inside, callee, way)) || (expression_may(
                c,
                trusting,
                inside,
                callee,
                Way::Ends,
            ) && arguments_may(c, trusting, inside, arguments@, 0, way)))
        },
        _ => way is Ends,
    }
}

/// Whether a summary says that control can leave a part in a way.
pub open spec fn shows(flow: FlowView, way: Way) -> bool {
    match way {
        Way::Ends => flow.flags.fallthrough,
        Way::Returns => flow.flags.returns,
        Way::Breaks => flow.flags.breaks,
        Way::Continues => flow.flags.continues,
        Way::Stops => flow.flags.diverges,
    }
}

/// Whether a summary tells just how a part can be left, and whether its end is reached even if every `switch` without
/// `else` has an arm for every value.
pub open spec fn tells(flow: FlowView, ways: spec_fn(bool, Way) -> bool) -> bool {
    &&& forall|way: Way| #[trigger] shows(flow, way) == ways(false, way)
    &&& flow.flags.fallthrough == (flow.fallthrough != FallthroughKind::Never)
    &&& (flow.fallthrough == FallthroughKind::Definite) == ways(true, Way::Ends)
}

/// Whether a step leaves the loops that control is in, and loses no error.
pub open spec fn keeps(before: FlowState, after: FlowState) -> bool {
    after.loops == before.loops && after.diagnostics.len() >= before.diagnostics.len()
}

/// Whether control is in a loop.
pub open spec fn looping(s: FlowState) -> bool {
    s.loops.len() > 0
}

proof fn lemma_same(flow: FlowView, left: spec_fn(bool, Way) -> bool, right: spec_fn(bool, Way) -> bool)
    requires
        tells(flow, left),
        forall|t: bool, w: Way| #[trigger] left(t, w) == right(t, w),
    ensures
        tells(flow, right),
{
    assert forall|way: Way| #[trigger] shows(flow, way) == right(false, way) by {
        assert(left(false, way) == right(false, way));
    }
    assert(left(true, Way::Ends) == right(true, Way::Ends));
}

proof fn lemma_falls()
    ensures
        tells(fallthrough_flow(), |t: bool, w: Way| w is Ends),
{
}

proof fn lemma_sequence(first: FlowView, next: FlowView, a: spec_fn(bool, Way) -> bool, b: spec_fn(bool, Way) -> bool)
    requires
        tells(first, a),
        tells(next, b),
    ensures
        tells(sequence_flow(first, next), |t: bool, w: Way| after(a, b, t, w)),
{
    let whole = sequence_flow(first, next);
    assert(shows(first, Way::Ends) == a(false, Way::Ends));
    assert(shows(next, Way::Ends) == b(false, Way::Ends));
    assert forall|way: Way| #[trigger] shows(whole, way) == after(a, b, false, way) by {
        assert(shows(first, way) == a(false, way));
        assert(shows(next, way) == b(false, way));
    }
}

/// What the union of several parts shows.
proof fn lemma_any(flows: Seq<FlowView>, count: int)
    requires
        0 <= count <= flows.len(),
        forall|i: int|
            0 <= i < flows.len() ==> (#[trigger] flows[i]).flags.fallthrough == (flows[i].fallthrough
                != FallthroughKind::Never),
    ensures
        ({
            let flags = any_flags(flows, count);
            let end = any_fallthrough(flows, count);
            &&& flags.returns == exists|i: int| 0 <= i < count && shows(#[trigger] flows[i], Way::Returns)
            &&& flags.breaks == exists|i: int| 0 <= i < count && shows(#[trigger] flows[i], Way::Breaks)
            &&& flags.continues == exists|i: int| 0 <= i < count && shows(#[trigger] flows[i], Way::Continues)
            &&& flags.diverges == exists|i: int| 0 <= i < count && shows(#[trigger] flows[i], Way::Stops)
            &&& (end != FallthroughKind::Never) == exists|i: int| 0 <= i < count && shows(#[trigger] flows[i], Way::Ends)
            &&& (end == FallthroughKind::Definite) == exists|i: int|
                0 <= i < count && (#[trigger] flows[i]).fallthrough == FallthroughKind::Definite
        }),
    decreases count,
{
    if count > 0 {
        lemma_any(flows, count - 1);
        let last = flows[count - 1];
    }
}

proof fn lemma_alternatives(flows: Seq<FlowView>)
    requires
        forall|i: int|
            0 <= i < flows.len() ==> (#[trigger] flows[i]).flags.fallthrough == (flows[i].fallthrough
                != FallthroughKind::Never),
    ensures
        ({
            let whole = alternatives_flow(flows);
            &&& forall|way: Way| #[trigger]
                shows(whole, way) == exists|i: int| 0 <= i < flows.len() && shows(#[trigger] flows[i], way)
            &&& whole.flags.fallthrough == (whole.fallthrough != FallthroughKind::Never)
            &&& (whole.fallthrough == FallthroughKind::Definite) == exists|i: int|
                0 <= i < flows.len() && (#[trigger] flows[i]).fallthrough == FallthroughKind::Definite
        }),
{
    lemma_any(flows, flows.len() as int);
    let whole = alternatives_flow(flows);
    assert forall|way: Way| #[trigger] shows(whole, way) == exists|i: int|
        0 <= i < flows.len() && shows(#[trigger] flows[i], way) by {
        match way {
            Way::Ends => {},
            Way::Returns => {},
            Way::Breaks => {},
            Way::Continues => {},
            Way::Stops => {},
        }
    }
}

proof fn lemma_stops(c: FlowContext, call: Span)
    ensures
        panics(c, call) == stops_program(c, call),
{
    reveal(panics);
    lemma_latest_call(c, call, c.calls.len() as int);
}

proof fn lemma_latest_call(c: FlowContext, call: Span, count: int)
    requires
        0 <= count <= c.calls.len(),
    ensures
        match latest_before(c.calls, call, count) {
            Some(i) => 0 <= i < count && c.calls[i].node == call && forall|j: int|
                i < j < count ==> (#[trigger] c.calls[j]).node != call,
            None => forall|j: int| 0 <= j < count ==> (#[trigger] c.calls[j]).node != call,
        },
    decreases count,
{
    if count > 0 {
        lemma_latest_call(c, call, count - 1);
    }
}

proof fn lemma_first_switch(c: FlowContext, statement: Span, from: int)
    requires
        0 <= from <= c.switches.len(),
    ensures
        match first_fact(c.switches, statement, from) {
            Some(i) => from <= i < c.switches.len() && c.switches[i].statement == statement && forall|j: int|
                from <= j < i ==> (#[trigger] c.switches[j]).statement != statement,
            None => forall|j: int| from <= j < c.switches.len() ==> (#[trigger] c.switches[j]).statement != statement,
        },
    decreases c.switches.len() - from,
{
    if from < c.switches.len() {
        lemma_first_switch(c, statement, from + 1);
    }
}

proof fn lemma_covers(c: FlowContext, statement: Span)
    ensures
        exhaustive(c, statement) == covers_all(c, statement),
{
    reveal(exhaustive);
    lemma_first_switch(c, statement, 0);
    match first_fact(c.switches, statement, 0) {
        Some(i) => {
            assert(first_switch(c.switches, statement, i));
            assert forall|j: int| #[trigger] first_switch(c.switches, statement, j) implies i == j by {
                if j < i {
                    assert(c.switches[j].statement != statement);
                } else if i < j {
                    assert(c.switches[i].statement != statement);
                }
            }
        },
        None => {},
    }
}

proof fn lemma_first_try(c: FlowContext, expression: Span, from: int)
    requires
        0 <= from <= c.tries.len(),
    ensures
        match first_fact(c.tries, expression, from) {
            Some(i) => from <= i < c.tries.len() && c.tries[i].expression == expression && forall|j: int|
                from <= j < i ==> (#[trigger] c.tries[j]).expression != expression,
            None => forall|j: int| from <= j < c.tries.len() ==> (#[trigger] c.tries[j]).expression != expression,
        },
    decreases c.tries.len() - from,
{
    if from < c.tries.len() {
        lemma_first_try(c, expression, from + 1);
    }
}

proof fn lemma_tried(c: FlowContext, expression: Span, flow: FlowView, ways: spec_fn(bool, Way) -> bool)
    requires
        tells(flow, ways),
    ensures
        tells(
            tried_flow(c, expression, flow),
            |t: bool, w: Way| ways(t, w) || (ways(t, Way::Ends) && try_may(c, expression, w)),
        ),
{
    reveal(tried_flow);
    lemma_first_try(c, expression, 0);
    let whole = tried_flow(c, expression, flow);
    assert(shows(flow, Way::Ends) == ways(false, Way::Ends));
    if let Some(i) = first_fact(c.tries, expression, 0) {
        assert(first_try(c.tries, expression, i));
        assert forall|j: int| #[trigger] first_try(c.tries, expression, j) implies i == j by {
            if j < i {
                assert(c.tries[j].expression != expression);
            } else if i < j {
                assert(c.tries[i].expression != expression);
            }
        }
    }
    assert forall|way: Way| #[trigger] shows(whole, way) == (ways(false, way) || (ways(false, Way::Ends) && try_may(
        c,
        expression,
        way,
    ))) by {
        assert(shows(flow, way) == ways(false, way));
    }
}

#[verifier::spinoff_prover]
proof fn lemma_expressions(
    c: FlowContext,
    s: FlowState,
    f: (FunctionId, TypeState),
    all: Seq<Expression>,
    from: int,
    flow: FlowView,
    before: spec_fn(bool, Way) -> bool,
)
    requires
        tells(flow, before),
    ensures
        keeps(s, expressions_flow(c, s, f, all, from, flow).0),
        tells(
            expressions_flow(c, s, f, all, from, flow).1,
            |t: bool, w: Way| after(before, |t: bool, w: Way| expressions_may(c, t, looping(s), all, from, w), t, w),
        ),
    decreases all, all.len() - from,
{
    reveal_with_fuel(expressions_flow, 1);
    reveal_with_fuel(expressions_may, 1);
    let whole = |t: bool, w: Way| after(before, |t: bool, w: Way| expressions_may(c, t, looping(s), all, from, w), t, w);
    if from < 0 || from >= all.len() {
        lemma_same(flow, before, whole);
    } else {
        let (next_s, next) = expression_flow(c, s, f, &all[from]);
        lemma_expression(c, s, f, &all[from]);
        let one = |t: bool, w: Way| expression_may(c, t, looping(s), &all[from], w);
        lemma_sequence(flow, next, before, one);
        let joined = sequence_flow(flow, next);
        let done = |t: bool, w: Way| after(before, one, t, w);
        let rest = |t: bool, w: Way| expressions_may(c, t, looping(s), all, from + 1, w);
        lemma_expressions(c, next_s, f, all, from + 1, joined, done);
        let got = expressions_flow(c, s, f, all, from, flow).1;
        lemma_same(got, |t: bool, w: Way| after(done, rest, t, w), whole);
    }
}

#[verifier::spinoff_prover]
proof fn lemma_arguments(
    c: FlowContext,
    s: FlowState,
    f: (FunctionId, TypeState),
    all: Seq<Argument>,
    from: int,
    flow: FlowView,
    before: spec_fn(bool, Way) -> bool,
)
    requires
        tells(flow, before),
    ensures
        keeps(s, arguments_flow(c, s, f, all, from, flow).0),
        tells(
            arguments_flow(c, s, f, all, from, flow).1,
            |t: bool, w: Way| after(before, |t: bool, w: Way| arguments_may(c, t, looping(s), all, from, w), t, w),
        ),
    decreases all, all.len() - from,
{
    reveal_with_fuel(arguments_flow, 1);
    reveal_with_fuel(arguments_may, 1);
    let whole = |t: bool, w: Way| after(before, |t: bool, w: Way| arguments_may(c, t, looping(s), all, from, w), t, w);
    if from < 0 || from >= all.len() {
        lemma_same(flow, before, whole);
    } else {
        let (next_s, next) = argument_flow(c, s, f, &all[from]);
        lemma_argument(c, s, f, &all[from]);
        let one = |t: bool, w: Way| argument_may(c, t, looping(s), &all[from], w);
        lemma_sequence(flow, next, before, one);
        let joined = sequence_flow(flow, next);
        let done = |t: bool, w: Way| after(before, one, t, w);
        let rest = |t: bool, w: Way| arguments_may(c, t, looping(s), all, from + 1, w);
        lemma_arguments(c, next_s, f, all, from + 1, joined, done);
        let got = arguments_flow(c, s, f, all, from, flow).1;
        lemma_same(got, |t: bool, w: Way| after(done, rest, t, w), whole);
    }
}

#[verifier::spinoff_prover]
proof fn lemma_entries(
    c: FlowContext,
    s: FlowState,
    f: (FunctionId, TypeState),
    all: Seq<MapEntry>,
    from: int,
    flow: FlowView,
    before: spec_fn(bool, Way) -> bool,
)
    requires
        tells(flow, before),
    ensures
        keeps(s, entries_flow(c, s, f, all, from, flow).0),
        tells(
            entries_flow(c, s, f, all, from, flow).1,
            |t: bool, w: Way| after(before, |t: bool, w: Way| entries_may(c, t, looping(s), all, from, w), t, w),
        ),
    decreases all, all.len() - from,
{
    reveal_with_fuel(entries_flow, 1);
    reveal_with_fuel(entries_may, 1);
    let whole = |t: bool, w: Way| after(before, |t: bool, w: Way| entries_may(c, t, looping(s), all, from, w), t, w);
    if from < 0 || from >= all.len() {
        lemma_same(flow, before, whole);
    } else {
        let one = |t: bool, w: Way| entry_may(c, t, looping(s), &all[from], w);
        lemma_entry(c, s, f, &all[from], flow, before);
        let (next_s, joined) = entry_flow(c, s, f, &all[from], flow);
        let done = |t: bool, w: Way| after(before, one, t, w);
        let rest = |t: bool, w: Way| entries_may(c, t, looping(s), all, from + 1, w);
        lemma_entries(c, next_s, f, all, from + 1, joined, done);
        let got = entries_flow(c, s, f, all, from, flow).1;
        lemma_same(got, |t: bool, w: Way| after(done, rest, t, w), whole);
    }
}

#[verifier::spinoff_prover]
proof fn lemma_suffixes(
    c: FlowContext,
    s: FlowState,
    f: (FunctionId, TypeState),
    all: Seq<AssignmentTargetSuffix>,
    from: int,
    flow: FlowView,
    before: spec_fn(bool, Way) -> bool,
)
    requires
        tells(flow, before),
    ensures
        keeps(s, suffixes_flow(c, s, f, all, from, flow).0),
        tells(
            suffixes_flow(c, s, f, all, from, flow).1,
            |t: bool, w: Way| after(before, |t: bool, w: Way| suffixes_may(c, t, looping(s), all, from, w), t, w),
        ),
    decreases all, all.len() - from,
{
    reveal_with_fuel(suffixes_flow, 1);
    reveal_with_fuel(suffixes_may, 1);
    let whole = |t: bool, w: Way| after(before, |t: bool, w: Way| suffixes_may(c, t, looping(s), all, from, w), t, w);
    if from < 0 || from >= all.len() {
        lemma_same(flow, before, whole);
    } else {
        let one = |t: bool, w: Way| suffix_may(c, t, looping(s), &all[from], w);
        lemma_suffix(c, s, f, &all[from], flow, before);
        let (next_s, joined) = suffix_flow(c, s, f, &all[from], flow);
        let done = |t: bool, w: Way| after(before, one, t, w);
        let rest = |t: bool, w: Way| suffixes_may(c, t, looping(s), all, from + 1, w);
        lemma_suffixes(c, next_s, f, all, from + 1, joined, done);
        let got = suffixes_flow(c, s, f, all, from, flow).1;
        lemma_same(got, |t: bool, w: Way| after(done, rest, t, w), whole);
    }
}

#[verifier::spinoff_prover]
proof fn lemma_entry(
    c: FlowContext,
    s: FlowState,
    f: (FunctionId, TypeState),
    it: &MapEntry,
    flow: FlowView,
    before: spec_fn(bool, Way) -> bool,
)
    requires
        tells(flow, before),
    ensures
        keeps(s, entry_flow(c, s, f, it, flow).0),
        tells(
            entry_flow(c, s, f, it, flow).1,
            |t: bool, w: Way| after(before, |t: bool, w: Way| entry_may(c, t, looping(s), it, w), t, w),
        ),
    decreases it, 0int,
{
    reveal_with_fuel(entry_flow, 1);
    reveal_with_fuel(entry_may, 1);
    let (s1, key) = expression_flow(c, s, f, &it.key);
    lemma_expression(c, s, f, &it.key);
    lemma_expression(c, s1, f, &it.value);
    let value = expression_flow(c, s1, f, &it.value).1;
    let a = |t: bool, w: Way| expression_may(c, t, looping(s), &it.key, w);
    let b = |t: bool, w: Way| expression_may(c, t, looping(s), &it.value, w);
    lemma_sequence(flow, key, before, a);
    let done = |t: bool, w: Way| after(before, a, t, w);
    lemma_sequence(sequence_flow(flow, key), value, done, b);
    lemma_same(
        entry_flow(c, s, f, it, flow).1,
        |t: bool, w: Way| after(done, b, t, w),
        |t: bool, w: Way| after(before, |t: bool, w: Way| entry_may(c, t, looping(s), it, w), t, w),
    );
}

#[verifier::spinoff_prover]
proof fn lemma_suffix(
    c: FlowContext,
    s: FlowState,
    f: (FunctionId, TypeState),
    it: &AssignmentTargetSuffix,
    flow: FlowView,
    before: spec_fn(bool, Way) -> bool,
)
    requires
        tells(flow, before),
    ensures
        keeps(s, suffix_flow(c, s, f, it, flow).0),
        tells(
            suffix_flow(c, s, f, it, flow).1,
            |t: bool, w: Way| after(before, |t: bool, w: Way| suffix_may(c, t, looping(s), it, w), t, w),
        ),
    decreases it, 0int,
{
    reveal_with_fuel(suffix_flow, 1);
    reveal_with_fuel(suffix_may, 1);
    let whole = |t: bool, w: Way| after(before, |t: bool, w: Way| suffix_may(c, t, looping(s), it, w), t, w);
    match &it.kind {
        AssignmentTargetSuffixKind::Index(index) => {
            lemma_expression(c, s, f, index);
            let next = expression_flow(c, s, f, index).1;
            let a = |t: bool, w: Way| expression_may(c, t, looping(s), index, w);
            lemma_sequence(flow, next, before, a);
            lemma_same(sequence_flow(flow, next), |t: bool, w: Way| after(before, a, t, w), whole);
        },
        AssignmentTargetSuffixKind::Member(_) => {
            lemma_same(flow, before, whole);
        },
    }
}

#[verifier::spinoff_prover]
proof fn lemma_argument(c: FlowContext, s: FlowState, f: (FunctionId, TypeState), it: &Argument)
    ensures
        keeps(s, argument_flow(c, s, f, it).0),
        tells(argument_flow(c, s, f, it).1, |t: bool, w: Way| argument_may(c, t, looping(s), it, w)),
    decreases it, 0int,
{
    reveal_with_fuel(argument_flow, 1);
    reveal_with_fuel(argument_may, 1);
    match &it.kind {
        ArgumentKind::Positional(value) => lemma_expression(c, s, f, value),
        ArgumentKind::Named { value, .. } => lemma_expression(c, s, f, value),
    }
}

#[verifier::spinoff_prover]
proof fn lemma_target(c: FlowContext, s: FlowState, f: (FunctionId, TypeState), it: &AssignmentTarget)
    ensures
        keeps(s, target_flow(c, s, f, it).0),
        tells(target_flow(c, s, f, it).1, |t: bool, w: Way| target_may(c, t, looping(s), it, w)),
    decreases it, 0int,
{
    reveal_with_fuel(target_flow, 1);
    reveal_with_fuel(target_may, 1);
    lemma_falls();
    let start = |t: bool, w: Way| w is Ends;
    lemma_suffixes(c, s, f, it.suffixes@, 0, fallthrough_flow(), start);
    lemma_same(
        target_flow(c, s, f, it).1,
        |t: bool, w: Way| after(start, |t: bool, w: Way| suffixes_may(c, t, looping(s), it.suffixes@, 0, w), t, w),
        |t: bool, w: Way| target_may(c, t, looping(s), it, w),
    );
}

#[verifier::spinoff_prover]
proof fn lemma_else(c: FlowContext, s: FlowState, f: (FunctionId, TypeState), it: &Option<StatementBody>)
    ensures
        keeps(s, else_flow(c, s, f, it).0),
        else_flow(c, s, f, it).1 is Some == it is Some,
        else_flow(c, s, f, it).1 matches Some(flow) ==> tells(flow, |t: bool, w: Way| else_may(c, t, looping(s), it, w)),
    decreases it, 0int,
{
    reveal_with_fuel(else_flow, 1);
    reveal_with_fuel(else_may, 1);
    if let Some(body) = it {
        lemma_statement_body(c, s, f, body);
    }
}

#[verifier::spinoff_prover]
proof fn lemma_value(c: FlowContext, s: FlowState, f: (FunctionId, TypeState), it: &Option<Expression>)
    ensures
        keeps(s, value_flow(c, s, f, it).0),
        tells(value_flow(c, s, f, it).1, |t: bool, w: Way| value_may(c, t, looping(s), it, w)),
    decreases it, 0int,
{
    reveal_with_fuel(value_flow, 1);
    reveal_with_fuel(value_may, 1);
    match it {
        Some(value) => lemma_expression(c, s, f, value),
        None => lemma_falls(),
    }
}

proof fn lemma_advanced(
    c: FlowContext,
    s: FlowState,
    progress: Progress,
    subject: FlowSubject,
    span: Span,
    next: FlowView,
)
    ensures
        keeps(s, advanced(c, s, progress, subject, span, next).0),
        advanced(c, s, progress, subject, span, next).1.flow == sequence_flow(progress.flow, next),
{
    reveal(advanced);
    reveal(warned);
    reveal(put_off);
}

#[verifier::spinoff_prover]
proof fn lemma_statements(
    c: FlowContext,
    s: FlowState,
    f: (FunctionId, TypeState),
    all: Seq<Statement>,
    from: int,
    progress: Progress,
    before: spec_fn(bool, Way) -> bool,
)
    requires
        tells(progress.flow, before),
    ensures
        keeps(s, statements_flow(c, s, f, all, from, progress).0),
        tells(
            statements_flow(c, s, f, all, from, progress).1.flow,
            |t: bool, w: Way| after(before, |t: bool, w: Way| statements_may(c, t, looping(s), all, from, w), t, w),
        ),
    decreases all, all.len() - from,
{
    reveal_with_fuel(statements_flow, 1);
    reveal_with_fuel(statements_may, 1);
    let whole = |t: bool, w: Way| after(before, |t: bool, w: Way| statements_may(c, t, looping(s), all, from, w), t, w);
    if from < 0 || from >= all.len() {
        lemma_same(progress.flow, before, whole);
    } else {
        let (s1, next) = statement_flow(c, s, f, &all[from]);
        lemma_statement(c, s, f, &all[from]);
        let one = |t: bool, w: Way| statement_may(c, t, looping(s), &all[from], w);
        lemma_sequence(progress.flow, next, before, one);
        let subject = FlowSubject::Statement(all[from].span);
        lemma_advanced(c, s1, progress, subject, all[from].span, next);
        let (s2, progress2) = advanced(c, s1, progress, subject, all[from].span, next);
        let done = |t: bool, w: Way| after(before, one, t, w);
        let rest = |t: bool, w: Way| statements_may(c, t, looping(s), all, from + 1, w);
        lemma_statements(c, s2, f, all, from + 1, progress2, done);
        lemma_same(
            statements_flow(c, s, f, all, from, progress).1.flow,
            |t: bool, w: Way| after(done, rest, t, w),
            whole,
        );
    }
}

#[verifier::spinoff_prover]
proof fn lemma_block(c: FlowContext, s: FlowState, f: (FunctionId, TypeState), it: &Block)
    ensures
        keeps(s, block_flow(c, s, f, it).0),
        tells(block_flow(c, s, f, it).1, |t: bool, w: Way| block_may(c, t, looping(s), it, w)),
    decreases it, 0int,
{
    reveal_with_fuel(block_flow, 1);
    reveal_with_fuel(block_may, 1);
    reveal(noted);
    lemma_falls();
    let start = |t: bool, w: Way| w is Ends;
    lemma_statements(c, s, f, it.statements@, 0, at_start(), start);
    let (s1, progress) = statements_flow(c, s, f, it.statements@, 0, at_start());
    let row = |t: bool, w: Way| statements_may(c, t, looping(s), it.statements@, 0, w);
    let begun = |t: bool, w: Way| after(start, row, t, w);
    lemma_same(progress.flow, begun, row);
    let whole = |t: bool, w: Way| block_may(c, t, looping(s), it, w);
    match &it.value {
        Some(value) => {
            lemma_expression(c, s1, f, value);
            let (s2, next) = expression_flow(c, s1, f, value);
            let one = |t: bool, w: Way| expression_may(c, t, looping(s), value, w);
            lemma_sequence(progress.flow, next, row, one);
            lemma_advanced(c, s2, progress, FlowSubject::Expression(value.span), value.span, next);
            lemma_same(block_flow(c, s, f, it).1, |t: bool, w: Way| after(row, one, t, w), whole);
        },
        None => {
            lemma_same(progress.flow, row, whole);
        },
    }
}

#[verifier::spinoff_prover]
proof fn lemma_statement_body(c: FlowContext, s: FlowState, f: (FunctionId, TypeState), it: &StatementBody)
    ensures
        keeps(s, statement_body_flow(c, s, f, it).0),
        tells(statement_body_flow(c, s, f, it).1, |t: bool, w: Way| statement_body_may(c, t, looping(s), it, w)),
    decreases it, 0int,
{
    reveal_with_fuel(statement_body_flow, 1);
    reveal_with_fuel(statement_body_may, 1);
    reveal(noted);
    match &it.kind {
        StatementBodyKind::Block(block) => lemma_block(c, s, f, block),
        StatementBodyKind::Statement(inner) => lemma_statement(c, s, f, inner),
    }
}

#[verifier::spinoff_prover]
proof fn lemma_expression_body(c: FlowContext, s: FlowState, f: (FunctionId, TypeState), it: &ExpressionBody)
    ensures
        keeps(s, expression_body_flow(c, s, f, it).0),
        tells(expression_body_flow(c, s, f, it).1, |t: bool, w: Way| expression_body_may(c, t, looping(s), it, w)),
    decreases it, 0int,
{
    reveal_with_fuel(expression_body_flow, 1);
    reveal_with_fuel(expression_body_may, 1);
    reveal(noted);
    match &it.kind {
        ExpressionBodyKind::Block(block) => lemma_block(c, s, f, block),
        ExpressionBodyKind::Expression(inner) => lemma_expression(c, s, f, inner),
    }
}

/// What is known after the first `from` branches: `remaining` is what is left where none of their conditions held, and
/// each alternative is what is left behind the body of one of them.
pub open spec fn branched(
    c: FlowContext,
    inside: bool,
    all: Seq<ConditionalStatementBranch>,
    from: int,
    remaining: FlowView,
    alternatives: Seq<FlowView>,
) -> bool {
    &&& alternatives.len() == from
    &&& tells(
        remaining,
        |t: bool, w: Way|
            tested_may(c, t, inside, all, from, w) || (w is Ends && conditions_end(c, t, inside, all, from)),
    )
    &&& forall|j: int|
        0 <= j < from ==> tells(
            #[trigger] alternatives[j],
            |t: bool, w: Way|
                tested_may(c, t, inside, all, j + 1, w) || (conditions_end(c, t, inside, all, j + 1)
                    && statement_body_may(c, t, inside, &all[j].body, w)),
        )
}

#[verifier::spinoff_prover]
proof fn lemma_branches(
    c: FlowContext,
    s: FlowState,
    f: (FunctionId, TypeState),
    all: Seq<ConditionalStatementBranch>,
    from: int,
    remaining: FlowView,
    alternatives: Seq<FlowView>,
)
    requires
        0 <= from <= all.len(),
        branched(c, looping(s), all, from, remaining, alternatives),
    ensures
        keeps(s, branches_flow(c, s, f, all, from, remaining, alternatives).0),
        ({
            let (_, last, every) = branches_flow(c, s, f, all, from, remaining, alternatives);
            branched(c, looping(s), all, all.len() as int, last, every)
        }),
    decreases all, all.len() - from,
{
    reveal_with_fuel(branches_flow, 1);
    if from < all.len() {
        let inside = looping(s);
        let (s1, condition, body) = branch_flow(c, s, f, &all[from]);
        lemma_branch(c, s, f, &all[from]);
        let tested = |t: bool, w: Way|
            tested_may(c, t, inside, all, from, w) || (w is Ends && conditions_end(c, t, inside, all, from));
        let a = |t: bool, w: Way| expression_may(c, t, inside, &all[from].condition, w);
        lemma_sequence(remaining, condition, tested, a);
        let next = sequence_flow(remaining, condition);
        let more = |t: bool, w: Way|
            tested_may(c, t, inside, all, from + 1, w) || (w is Ends && conditions_end(
                c,
                t,
                inside,
                all,
                from + 1,
            ));
        assert forall|t: bool, w: Way| #[trigger] after(tested, a, t, w) == more(t, w) by {
            lemma_tested(c, t, inside, all, from, w);
            lemma_tested(c, t, inside, all, from, Way::Ends);
        }
        lemma_same(next, |t: bool, w: Way| after(tested, a, t, w), more);
        let b = |t: bool, w: Way| statement_body_may(c, t, inside, &all[from].body, w);
        lemma_sequence(next, body, more, b);
        let done = |t: bool, w: Way|
            tested_may(c, t, inside, all, from + 1, w) || (conditions_end(c, t, inside, all, from + 1)
                && statement_body_may(c, t, inside, &all[from].body, w));
        assert forall|t: bool, w: Way| #[trigger] after(more, b, t, w) == done(t, w) by {
            lemma_tested(c, t, inside, all, from, w);
            lemma_tested(c, t, inside, all, from, Way::Ends);
        }
        lemma_same(sequence_flow(next, body), |t: bool, w: Way| after(more, b, t, w), done);
        let every = alternatives.push(sequence_flow(next, body));
        assert forall|j: int| 0 <= j < from + 1 implies tells(
            #[trigger] every[j],
            |t: bool, w: Way|
                tested_may(c, t, inside, all, j + 1, w) || (conditions_end(c, t, inside, all, j + 1)
                    && statement_body_may(c, t, inside, &all[j].body, w)),
        ) by {
            if j < from {
                assert(every[j] == alternatives[j]);
            }
        }
        lemma_branches(c, s1, f, all, from + 1, next, every);
    }
}

/// One more condition.
proof fn lemma_tested(c: FlowContext, t: bool, inside: bool, all: Seq<ConditionalStatementBranch>, from: int, w: Way)
    requires
        0 <= from < all.len(),
    ensures
        conditions_end(c, t, inside, all, from + 1) == (conditions_end(c, t, inside, all, from)
            && expression_may(c, t, inside, &all[from].condition, Way::Ends)),
        tested_may(c, t, inside, all, from + 1, w) == (tested_may(c, t, inside, all, from, w) || (!(w is Ends)
            && conditions_end(c, t, inside, all, from) && expression_may(
            c,
            t,
            inside,
            &all[from].condition,
            w,
        ))),
        w is Ends ==> !tested_may(c, t, inside, all, from, w) && !tested_may(c, t, inside, all, from + 1, w),
{
    reveal_with_fuel(conditions_end, 1);
    reveal_with_fuel(tested_may, 1);
    reveal_with_fuel(expression_may, 1);
    lemma_never_tested(c, t, inside, all, from);
    lemma_never_tested(c, t, inside, all, from + 1);
}

proof fn lemma_never_tested(c: FlowContext, t: bool, inside: bool, all: Seq<ConditionalStatementBranch>, count: int)
    ensures
        !tested_may(c, t, inside, all, count, Way::Ends),
    decreases count,
{
    reveal_with_fuel(tested_may, 1);
    if 0 < count <= all.len() {
        lemma_never_tested(c, t, inside, all, count - 1);
    }
}

proof fn lemma_tested_more(
    c: FlowContext,
    t: bool,
    inside: bool,
    all: Seq<ConditionalStatementBranch>,
    few: int,
    many: int,
    w: Way,
)
    requires
        few <= many <= all.len(),
        tested_may(c, t, inside, all, few, w),
    ensures
        tested_may(c, t, inside, all, many, w),
    decreases many - few,
{
    if few < many {
        lemma_tested_more(c, t, inside, all, few, many - 1, w);
        reveal_with_fuel(tested_may, 1);
    }
}

/// Whether the body of a branch can be come to, and left in a way.
pub open spec fn taken(
    c: FlowContext,
    t: bool,
    inside: bool,
    all: Seq<ConditionalStatementBranch>,
    i: int,
    w: Way,
) -> bool {
    conditions_end(c, t, inside, all, i + 1) && statement_body_may(c, t, inside, &all[i].body, w)
}

proof fn lemma_bodies(c: FlowContext, t: bool, inside: bool, all: Seq<ConditionalStatementBranch>, count: int, w: Way)
    requires
        0 <= count <= all.len(),
    ensures
        bodies_may(c, t, inside, all, count, w) == exists|i: int|
            0 <= i < count && #[trigger] taken(c, t, inside, all, i, w),
    decreases count,
{
    reveal_with_fuel(bodies_may, 1);
    reveal_with_fuel(conditions_end, 1);
    reveal_with_fuel(statement_body_may, 1);
    if count > 0 {
        lemma_bodies(c, t, inside, all, count - 1, w);
        assert(count - 1 + 1 == count);
        assert(taken(c, t, inside, all, count - 1, w) == (conditions_end(c, t, inside, all, count)
            && statement_body_may(c, t, inside, &all[count - 1].body, w)));
        assert(bodies_may(c, t, inside, all, count, w) == (bodies_may(c, t, inside, all, count - 1, w)
            || taken(c, t, inside, all, count - 1, w)));
    }
}

#[verifier::spinoff_prover]
proof fn lemma_branch(c: FlowContext, s: FlowState, f: (FunctionId, TypeState), it: &ConditionalStatementBranch)
    ensures
        keeps(s, branch_flow(c, s, f, it).0),
        tells(branch_flow(c, s, f, it).1, |t: bool, w: Way| expression_may(c, t, looping(s), &it.condition, w)),
        tells(branch_flow(c, s, f, it).2, |t: bool, w: Way| statement_body_may(c, t, looping(s), &it.body, w)),
    decreases it, 0int,
{
    reveal_with_fuel(branch_flow, 1);
    lemma_expression(c, s, f, &it.condition);
    lemma_statement_body(c, expression_flow(c, s, f, &it.condition).0, f, &it.body);
}

/// All of the branches of an `if`, and what comes where none of their conditions held.
proof fn lemma_choice(
    c: FlowContext,
    inside: bool,
    all: Seq<ConditionalStatementBranch>,
    remaining: FlowView,
    alternatives: Seq<FlowView>,
    last: FlowView,
    other: spec_fn(bool, Way) -> bool,
)
    requires
        branched(c, inside, all, all.len() as int, remaining, alternatives),
        tells(
            last,
            |t: bool, w: Way|
                tested_may(c, t, inside, all, all.len() as int, w) || (conditions_end(
                    c,
                    t,
                    inside,
                    all,
                    all.len() as int,
                ) && other(t, w)),
        ),
    ensures
        tells(
            alternatives_flow(alternatives.push(last)),
            |t: bool, w: Way|
                {
                    ||| tested_may(c, t, inside, all, all.len() as int, w)
                    ||| bodies_may(c, t, inside, all, all.len() as int, w)
                    ||| conditions_end(c, t, inside, all, all.len() as int) && other(t, w)
                },
        ),
{
    let flows = alternatives.push(last);
    let count = all.len() as int;
    lemma_alternatives(flows);
    let whole = alternatives_flow(flows);
    assert(flows[count] == last);
    assert forall|i: int| 0 <= i < count implies #[trigger] flows[i] == alternatives[i] by {}
    assert forall|way: Way| #[trigger] shows(whole, way) == ({
        ||| tested_may(c, false, inside, all, count, way)
        ||| bodies_may(c, false, inside, all, count, way)
        ||| conditions_end(c, false, inside, all, count) && other(false, way)
    }) by {
        lemma_bodies(c, false, inside, all, count, way);
        if shows(whole, way) {
            let i = choose|i: int| 0 <= i < flows.len() && shows(#[trigger] flows[i], way);
            if i < count {
                assert(shows(alternatives[i], way));
                if tested_may(c, false, inside, all, i + 1, way) {
                    lemma_tested_more(c, false, inside, all, i + 1, count, way);
                } else {
                    assert(taken(c, false, inside, all, i, way));
                }
            } else {
                assert(shows(last, way));
            }
        }
        if tested_may(c, false, inside, all, count, way) {
            assert(shows(flows[count], way));
        }
        if conditions_end(c, false, inside, all, count) && other(false, way) {
            assert(shows(flows[count], way));
        }
        if bodies_may(c, false, inside, all, count, way) {
            let i = choose|i: int| 0 <= i < count && #[trigger] taken(c, false, inside, all, i, way);
            assert(shows(alternatives[i], way));
            assert(shows(flows[i], way));
        }
    }
    lemma_bodies(c, true, inside, all, count, Way::Ends);
    assert forall|j: int| !#[trigger] tested_may(c, true, inside, all, j, Way::Ends) by {
        lemma_never_tested(c, true, inside, all, j);
    }
    if whole.fallthrough == FallthroughKind::Definite {
        let i = choose|i: int| 0 <= i < flows.len() && (#[trigger] flows[i]).fallthrough == FallthroughKind::Definite;
        if i < count {
            assert(alternatives[i].fallthrough == FallthroughKind::Definite);
            assert(taken(c, true, inside, all, i, Way::Ends));
        }
    }
    if bodies_may(c, true, inside, all, count, Way::Ends) {
        let i = choose|i: int| 0 <= i < count && #[trigger] taken(c, true, inside, all, i, Way::Ends);
        assert(alternatives[i].fallthrough == FallthroughKind::Definite);
        assert(flows[i].fallthrough == FallthroughKind::Definite);
    }
    if conditions_end(c, true, inside, all, count) && other(true, Way::Ends) {
        assert(flows[count].fallthrough == FallthroughKind::Definite);
    }
}

/// What is known after the first `from` branches: `remaining` is what is left where none of their conditions held, and
/// each alternative is what is left behind the body of one of them.
pub open spec fn choice_branched(
    c: FlowContext,
    inside: bool,
    all: Seq<ConditionalExpressionBranch>,
    from: int,
    remaining: FlowView,
    alternatives: Seq<FlowView>,
) -> bool {
    &&& alternatives.len() == from
    &&& tells(
        remaining,
        |t: bool, w: Way|
            choice_tested_may(c, t, inside, all, from, w) || (w is Ends && choice_conditions_end(c, t, inside, all, from)),
    )
    &&& forall|j: int|
        0 <= j < from ==> tells(
            #[trigger] alternatives[j],
            |t: bool, w: Way|
                choice_tested_may(c, t, inside, all, j + 1, w) || (choice_conditions_end(c, t, inside, all, j + 1)
                    && expression_body_may(c, t, inside, &all[j].body, w)),
        )
}

#[verifier::spinoff_prover]
proof fn lemma_choice_branches(
    c: FlowContext,
    s: FlowState,
    f: (FunctionId, TypeState),
    all: Seq<ConditionalExpressionBranch>,
    from: int,
    remaining: FlowView,
    alternatives: Seq<FlowView>,
)
    requires
        0 <= from <= all.len(),
        choice_branched(c, looping(s), all, from, remaining, alternatives),
    ensures
        keeps(s, choices_flow(c, s, f, all, from, remaining, alternatives).0),
        ({
            let (_, last, every) = choices_flow(c, s, f, all, from, remaining, alternatives);
            choice_branched(c, looping(s), all, all.len() as int, last, every)
        }),
    decreases all, all.len() - from,
{
    reveal_with_fuel(choices_flow, 1);
    if from < all.len() {
        let inside = looping(s);
        let (s1, condition, body) = choice_flow(c, s, f, &all[from]);
        lemma_choice_branch(c, s, f, &all[from]);
        let tested = |t: bool, w: Way|
            choice_tested_may(c, t, inside, all, from, w) || (w is Ends && choice_conditions_end(c, t, inside, all, from));
        let a = |t: bool, w: Way| expression_may(c, t, inside, &all[from].condition, w);
        lemma_sequence(remaining, condition, tested, a);
        let next = sequence_flow(remaining, condition);
        let more = |t: bool, w: Way|
            choice_tested_may(c, t, inside, all, from + 1, w) || (w is Ends && choice_conditions_end(
                c,
                t,
                inside,
                all,
                from + 1,
            ));
        assert forall|t: bool, w: Way| #[trigger] after(tested, a, t, w) == more(t, w) by {
            lemma_choice_tested(c, t, inside, all, from, w);
            lemma_choice_tested(c, t, inside, all, from, Way::Ends);
        }
        lemma_same(next, |t: bool, w: Way| after(tested, a, t, w), more);
        let b = |t: bool, w: Way| expression_body_may(c, t, inside, &all[from].body, w);
        lemma_sequence(next, body, more, b);
        let done = |t: bool, w: Way|
            choice_tested_may(c, t, inside, all, from + 1, w) || (choice_conditions_end(c, t, inside, all, from + 1)
                && expression_body_may(c, t, inside, &all[from].body, w));
        assert forall|t: bool, w: Way| #[trigger] after(more, b, t, w) == done(t, w) by {
            lemma_choice_tested(c, t, inside, all, from, w);
            lemma_choice_tested(c, t, inside, all, from, Way::Ends);
        }
        lemma_same(sequence_flow(next, body), |t: bool, w: Way| after(more, b, t, w), done);
        let every = alternatives.push(sequence_flow(next, body));
        assert forall|j: int| 0 <= j < from + 1 implies tells(
            #[trigger] every[j],
            |t: bool, w: Way|
                choice_tested_may(c, t, inside, all, j + 1, w) || (choice_conditions_end(c, t, inside, all, j + 1)
                    && expression_body_may(c, t, inside, &all[j].body, w)),
        ) by {
            if j < from {
                assert(every[j] == alternatives[j]);
            }
        }
        lemma_choice_branches(c, s1, f, all, from + 1, next, every);
    }
}

/// One more condition.
proof fn lemma_choice_tested(
    c: FlowContext,
    t: bool,
    inside: bool,
    all: Seq<ConditionalExpressionBranch>,
    from: int,
    w: Way,
)
    requires
        0 <= from < all.len(),
    ensures
        choice_conditions_end(c, t, inside, all, from + 1) == (choice_conditions_end(c, t, inside, all, from)
            && expression_may(c, t, inside, &all[from].condition, Way::Ends)),
        choice_tested_may(c, t, inside, all, from + 1, w) == (choice_tested_may(c, t, inside, all, from, w) || (!(w is Ends)
            && choice_conditions_end(c, t, inside, all, from) && expression_may(
            c,
            t,
            inside,
            &all[from].condition,
            w,
        ))),
        w is Ends ==> !choice_tested_may(c, t, inside, all, from, w) && !choice_tested_may(
            c,
            t,
            inside,
            all,
            from + 1,
            w,
        ),
{
    reveal_with_fuel(choice_conditions_end, 1);
    reveal_with_fuel(choice_tested_may, 1);
    reveal_with_fuel(expression_may, 1);
    lemma_choice_never_tested(c, t, inside, all, from);
    lemma_choice_never_tested(c, t, inside, all, from + 1);
}

proof fn lemma_choice_never_tested(
    c: FlowContext,
    t: bool,
    inside: bool,
    all: Seq<ConditionalExpressionBranch>,
    count: int,
)
    ensures
        !choice_tested_may(c, t, inside, all, count, Way::Ends),
    decreases count,
{
    reveal_with_fuel(choice_tested_may, 1);
    if 0 < count <= all.len() {
        lemma_choice_never_tested(c, t, inside, all, count - 1);
    }
}

proof fn lemma_choice_tested_more(
    c: FlowContext,
    t: bool,
    inside: bool,
    all: Seq<ConditionalExpressionBranch>,
    few: int,
    many: int,
    w: Way,
)
    requires
        few <= many <= all.len(),
        choice_tested_may(c, t, inside, all, few, w),
    ensures
        choice_tested_may(c, t, inside, all, many, w),
    decreases many - few,
{
    if few < many {
        lemma_choice_tested_more(c, t, inside, all, few, many - 1, w);
        reveal_with_fuel(choice_tested_may, 1);
    }
}

/// Whether the body of a branch can be come to, and left in a way.
pub open spec fn choice_taken(
    c: FlowContext,
    t: bool,
    inside: bool,
    all: Seq<ConditionalExpressionBranch>,
    i: int,
    w: Way,
) -> bool {
    choice_conditions_end(c, t, inside, all, i + 1) && expression_body_may(c, t, inside, &all[i].body, w)
}

proof fn lemma_choice_bodies(
    c: FlowContext,
    t: bool,
    inside: bool,
    all: Seq<ConditionalExpressionBranch>,
    count: int,
    w: Way,
)
    requires
        0 <= count <= all.len(),
    ensures
        choice_bodies_may(c, t, inside, all, count, w) == exists|i: int|
            0 <= i < count && #[trigger] choice_taken(c, t, inside, all, i, w),
    decreases count,
{
    reveal_with_fuel(choice_bodies_may, 1);
    reveal_with_fuel(choice_conditions_end, 1);
    reveal_with_fuel(expression_body_may, 1);
    if count > 0 {
        lemma_choice_bodies(c, t, inside, all, count - 1, w);
        assert(count - 1 + 1 == count);
        assert(choice_taken(c, t, inside, all, count - 1, w) == (choice_conditions_end(c, t, inside, all, count)
            && expression_body_may(c, t, inside, &all[count - 1].body, w)));
        assert(choice_bodies_may(c, t, inside, all, count, w) == (choice_bodies_may(c, t, inside, all, count - 1, w)
            || choice_taken(c, t, inside, all, count - 1, w)));
    }
}

#[verifier::spinoff_prover]
proof fn lemma_choice_branch(c: FlowContext, s: FlowState, f: (FunctionId, TypeState), it: &ConditionalExpressionBranch)
    ensures
        keeps(s, choice_flow(c, s, f, it).0),
        tells(choice_flow(c, s, f, it).1, |t: bool, w: Way| expression_may(c, t, looping(s), &it.condition, w)),
        tells(choice_flow(c, s, f, it).2, |t: bool, w: Way| expression_body_may(c, t, looping(s), &it.body, w)),
    decreases it, 0int,
{
    reveal_with_fuel(choice_flow, 1);
    lemma_expression(c, s, f, &it.condition);
    lemma_expression_body(c, expression_flow(c, s, f, &it.condition).0, f, &it.body);
}

/// All of the branches of an `if`, and what comes where none of their conditions held.
proof fn lemma_choice_choice(
    c: FlowContext,
    inside: bool,
    all: Seq<ConditionalExpressionBranch>,
    remaining: FlowView,
    alternatives: Seq<FlowView>,
    last: FlowView,
    other: spec_fn(bool, Way) -> bool,
)
    requires
        choice_branched(c, inside, all, all.len() as int, remaining, alternatives),
        tells(
            last,
            |t: bool, w: Way|
                choice_tested_may(c, t, inside, all, all.len() as int, w) || (choice_conditions_end(
                    c,
                    t,
                    inside,
                    all,
                    all.len() as int,
                ) && other(t, w)),
        ),
    ensures
        tells(
            alternatives_flow(alternatives.push(last)),
            |t: bool, w: Way|
                {
                    ||| choice_tested_may(c, t, inside, all, all.len() as int, w)
                    ||| choice_bodies_may(c, t, inside, all, all.len() as int, w)
                    ||| choice_conditions_end(c, t, inside, all, all.len() as int) && other(t, w)
                },
        ),
{
    let flows = alternatives.push(last);
    let count = all.len() as int;
    lemma_alternatives(flows);
    let whole = alternatives_flow(flows);
    assert(flows[count] == last);
    assert forall|i: int| 0 <= i < count implies #[trigger] flows[i] == alternatives[i] by {}
    assert forall|way: Way| #[trigger] shows(whole, way) == ({
        ||| choice_tested_may(c, false, inside, all, count, way)
        ||| choice_bodies_may(c, false, inside, all, count, way)
        ||| choice_conditions_end(c, false, inside, all, count) && other(false, way)
    }) by {
        lemma_choice_bodies(c, false, inside, all, count, way);
        if shows(whole, way) {
            let i = choose|i: int| 0 <= i < flows.len() && shows(#[trigger] flows[i], way);
            if i < count {
                assert(shows(alternatives[i], way));
                if choice_tested_may(c, false, inside, all, i + 1, way) {
                    lemma_choice_tested_more(c, false, inside, all, i + 1, count, way);
                } else {
                    assert(choice_taken(c, false, inside, all, i, way));
                }
            } else {
                assert(shows(last, way));
            }
        }
        if choice_tested_may(c, false, inside, all, count, way) {
            assert(shows(flows[count], way));
        }
        if choice_conditions_end(c, false, inside, all, count) && other(false, way) {
            assert(shows(flows[count], way));
        }
        if choice_bodies_may(c, false, inside, all, count, way) {
            let i = choose|i: int| 0 <= i < count && #[trigger] choice_taken(c, false, inside, all, i, way);
            assert(shows(alternatives[i], way));
            assert(shows(flows[i], way));
        }
    }
    lemma_choice_bodies(c, true, inside, all, count, Way::Ends);
    assert forall|j: int| !#[trigger] choice_tested_may(c, true, inside, all, j, Way::Ends) by {
        lemma_choice_never_tested(c, true, inside, all, j);
    }
    if whole.fallthrough == FallthroughKind::Definite {
        let i = choose|i: int| 0 <= i < flows.len() && (#[trigger] flows[i]).fallthrough == FallthroughKind::Definite;
        if i < count {
            assert(alternatives[i].fallthrough == FallthroughKind::Definite);
            assert(choice_taken(c, true, inside, all, i, Way::Ends));
        }
    }
    if choice_bodies_may(c, true, inside, all, count, Way::Ends) {
        let i = choose|i: int| 0 <= i < count && #[trigger] choice_taken(c, true, inside, all, i, Way::Ends);
        assert(alternatives[i].fallthrough == FallthroughKind::Definite);
        assert(flows[i].fallthrough == FallthroughKind::Definite);
    }
    if choice_conditions_end(c, true, inside, all, count) && other(true, Way::Ends) {
        assert(flows[count].fallthrough == FallthroughKind::Definite);
    }
}

#[verifier::spinoff_prover]
proof fn lemma_arms(
    c: FlowContext,
    s: FlowState,
    f: (FunctionId, TypeState),
    all: Seq<SwitchArm>,
    from: int,
    alternatives: Seq<FlowView>,
)
    requires
        0 <= from <= all.len(),
        alternatives.len() == from,
        forall|i: int|
            0 <= i < from ==> tells(#[trigger] alternatives[i], |t: bool, w: Way| statement_body_may(c, t, looping(s), &all[i].body, w)),
    ensures
        keeps(s, arms_flow(c, s, f, all, from, alternatives).0),
        arms_flow(c, s, f, all, from, alternatives).1.len() == all.len(),
        forall|i: int|
            0 <= i < all.len() ==> tells(
                #[trigger] arms_flow(c, s, f, all, from, alternatives).1[i],
                |t: bool, w: Way| statement_body_may(c, t, looping(s), &all[i].body, w),
            ),
    decreases all, all.len() - from,
{
    reveal_with_fuel(arms_flow, 1);
    if from < all.len() {
        lemma_arm(c, s, f, &all[from]);
        let (s1, flow) = arm_flow(c, s, f, &all[from]);
        let every = alternatives.push(flow);
        assert forall|i: int| 0 <= i < from + 1 implies tells(
            #[trigger] every[i],
            |t: bool, w: Way| statement_body_may(c, t, looping(s1), &all[i].body, w),
        ) by {
            if i < from {
                assert(every[i] == alternatives[i]);
            }
        }
        lemma_arms(c, s1, f, all, from + 1, every);
    }
}

#[verifier::spinoff_prover]
proof fn lemma_arm(c: FlowContext, s: FlowState, f: (FunctionId, TypeState), it: &SwitchArm)
    ensures
        keeps(s, arm_flow(c, s, f, it).0),
        tells(arm_flow(c, s, f, it).1, |t: bool, w: Way| statement_body_may(c, t, looping(s), &it.body, w)),
    decreases it, 0int,
{
    reveal_with_fuel(arm_flow, 1);
    reveal(noted);
    lemma_statement_body(c, s, f, &it.body);
}

pub open spec fn entered(c: FlowContext, t: bool, inside: bool, all: Seq<SwitchArm>, i: int, w: Way) -> bool {
    statement_body_may(c, t, inside, &all[i].body, w)
}

proof fn lemma_arms_may(c: FlowContext, t: bool, inside: bool, all: Seq<SwitchArm>, count: int, w: Way)
    requires
        0 <= count <= all.len(),
    ensures
        arms_may(c, t, inside, all, count, w) == exists|i: int|
            0 <= i < count && #[trigger] entered(c, t, inside, all, i, w),
    decreases count,
{
    reveal_with_fuel(arms_may, 1);
    reveal_with_fuel(statement_body_may, 1);
    if count > 0 {
        lemma_arms_may(c, t, inside, all, count - 1, w);
        assert(arms_may(c, t, inside, all, count, w) == (arms_may(c, t, inside, all, count - 1, w) || entered(
            c,
            t,
            inside,
            all,
            count - 1,
            w,
        )));
    }
}

proof fn lemma_loop(head: FlowView, body: FlowView, a: spec_fn(bool, Way) -> bool, b: spec_fn(bool, Way) -> bool)
    requires
        tells(head, a),
        tells(body, b),
    ensures
        tells(
            loop_flow(head, body),
            |t: bool, w: Way|
                (!(w is Ends) && a(t, w)) || (a(t, Way::Ends) && (w is Ends || ((w is Returns || w is Stops) && b(t, w)))),
        ),
{
    let whole = loop_flow(head, body);
    assert(shows(head, Way::Ends) == a(false, Way::Ends));
    assert forall|w: Way| #[trigger] shows(whole, w) == ((!(w is Ends) && a(false, w)) || (a(false, Way::Ends) && (w is Ends
        || ((w is Returns || w is Stops) && b(false, w))))) by {
        assert(shows(head, w) == a(false, w));
        assert(shows(body, w) == b(false, w));
    }
}

#[verifier::spinoff_prover]
#[verifier::rlimit(60)]
proof fn lemma_if(c: FlowContext, s: FlowState, f: (FunctionId, TypeState), it: &Statement)
    requires
        it.kind is If,
    ensures
        keeps(s, statement_core_flow(c, s, f, it).0),
        tells(statement_core_flow(c, s, f, it).1, |t: bool, w: Way| statement_may(c, t, looping(s), it, w)),
    decreases it, 0int,
{
    reveal_with_fuel(statement_core_flow, 1);
    reveal_with_fuel(statement_may, 1);
    if let StatementKind::If { branches, else_body } = &it.kind {
        let inside = looping(s);
        let all = branches@;
        let count = all.len() as int;
        lemma_start(c, inside, all);
        lemma_branches(c, s, f, all, 0, fallthrough_flow(), seq![]);
        let (s1, remaining, alternatives) = branches_flow(c, s, f, all, 0, fallthrough_flow(), seq![]);
        lemma_else(c, s1, f, else_body);
        let other = |t: bool, w: Way| else_may(c, t, looping(s), else_body, w);
        let tested = |t: bool, w: Way|
            tested_may(c, t, inside, all, count, w) || (w is Ends && conditions_end(c, t, inside, all, count));
        let whole = |t: bool, w: Way|
            tested_may(c, t, inside, all, count, w) || (conditions_end(c, t, inside, all, count) && other(t, w));
        assert forall|t: bool| !#[trigger] tested_may(c, t, inside, all, count, Way::Ends) by {
            lemma_never_tested(c, t, inside, all, count);
        }
        let last = match else_flow(c, s1, f, else_body).1 {
            Some(flow) => {
                lemma_sequence(remaining, flow, tested, other);
                lemma_same(sequence_flow(remaining, flow), |t: bool, w: Way| after(tested, other, t, w), whole);
                sequence_flow(remaining, flow)
            },
            None => {
                reveal_with_fuel(else_may, 1);
                lemma_same(remaining, tested, whole);
                remaining
            },
        };
        lemma_choice(c, inside, all, remaining, alternatives, last, other);
        reveal_with_fuel(tested_may, 1);
        reveal_with_fuel(conditions_end, 1);
        reveal_with_fuel(bodies_may, 1);
        reveal_with_fuel(else_may, 1);
        lemma_same(
            statement_core_flow(c, s, f, it).1,
            |t: bool, w: Way|
                {
                    ||| tested_may(c, t, inside, all, count, w)
                    ||| bodies_may(c, t, inside, all, count, w)
                    ||| conditions_end(c, t, inside, all, count) && other(t, w)
                },
            |t: bool, w: Way| statement_may(c, t, looping(s), it, w),
        );
    }
}

#[verifier::spinoff_prover]
#[verifier::rlimit(60)]
proof fn lemma_if_expression(c: FlowContext, s: FlowState, f: (FunctionId, TypeState), it: &Expression)
    requires
        it.kind is If,
    ensures
        keeps(s, expression_core_flow(c, s, f, it).0),
        tells(expression_core_flow(c, s, f, it).1, |t: bool, w: Way| expression_may(c, t, looping(s), it, w)),
    decreases it, 0int,
{
    reveal_with_fuel(expression_core_flow, 1);
    reveal_with_fuel(expression_may, 1);
    if let ExpressionKind::If { branches, else_branch } = &it.kind {
        let inside = looping(s);
        let all = branches@;
        let count = all.len() as int;
        lemma_choice_start(c, inside, all);
        lemma_choice_branches(c, s, f, all, 0, fallthrough_flow(), seq![]);
        let (s1, remaining, alternatives) = choices_flow(c, s, f, all, 0, fallthrough_flow(), seq![]);
        lemma_expression_body(c, s1, f, else_branch);
        let other = |t: bool, w: Way| expression_body_may(c, t, looping(s), else_branch, w);
        let flow = expression_body_flow(c, s1, f, else_branch).1;
        let tested = |t: bool, w: Way|
            choice_tested_may(c, t, inside, all, count, w) || (w is Ends && choice_conditions_end(c, t, inside, all, count));
        let whole = |t: bool, w: Way|
            choice_tested_may(c, t, inside, all, count, w) || (choice_conditions_end(c, t, inside, all, count) && other(
                t,
                w,
            ));
        assert forall|t: bool| !#[trigger] choice_tested_may(c, t, inside, all, count, Way::Ends) by {
            lemma_choice_never_tested(c, t, inside, all, count);
        }
        lemma_sequence(remaining, flow, tested, other);
        lemma_same(sequence_flow(remaining, flow), |t: bool, w: Way| after(tested, other, t, w), whole);
        lemma_choice_choice(c, inside, all, remaining, alternatives, sequence_flow(remaining, flow), other);
        reveal_with_fuel(choice_tested_may, 1);
        reveal_with_fuel(choice_conditions_end, 1);
        reveal_with_fuel(choice_bodies_may, 1);
        reveal_with_fuel(expression_body_may, 1);
        lemma_same(
            expression_core_flow(c, s, f, it).1,
            |t: bool, w: Way|
                {
                    ||| choice_tested_may(c, t, inside, all, count, w)
                    ||| choice_bodies_may(c, t, inside, all, count, w)
                    ||| choice_conditions_end(c, t, inside, all, count) && other(t, w)
                },
            |t: bool, w: Way| expression_may(c, t, looping(s), it, w),
        );
    }
}

proof fn lemma_start(c: FlowContext, inside: bool, all: Seq<ConditionalStatementBranch>)
    ensures
        branched(c, inside, all, 0, fallthrough_flow(), seq![]),
{
    lemma_falls();
    reveal_with_fuel(tested_may, 1);
    reveal_with_fuel(conditions_end, 1);
    lemma_same(
        fallthrough_flow(),
        |t: bool, w: Way| w is Ends,
        |t: bool, w: Way|
            tested_may(c, t, inside, all, 0, w) || (w is Ends && conditions_end(c, t, inside, all, 0)),
    );
}

proof fn lemma_choice_start(c: FlowContext, inside: bool, all: Seq<ConditionalExpressionBranch>)
    ensures
        choice_branched(c, inside, all, 0, fallthrough_flow(), seq![]),
{
    lemma_falls();
    reveal_with_fuel(choice_tested_may, 1);
    reveal_with_fuel(choice_conditions_end, 1);
    lemma_same(
        fallthrough_flow(),
        |t: bool, w: Way| w is Ends,
        |t: bool, w: Way|
            choice_tested_may(c, t, inside, all, 0, w) || (w is Ends && choice_conditions_end(c, t, inside, all, 0)),
    );
}

#[verifier::spinoff_prover]
#[verifier::rlimit(60)]
proof fn lemma_switch(c: FlowContext, s: FlowState, f: (FunctionId, TypeState), it: &Statement)
    requires
        it.kind is Switch,
    ensures
        keeps(s, statement_core_flow(c, s, f, it).0),
        tells(statement_core_flow(c, s, f, it).1, |t: bool, w: Way| statement_may(c, t, looping(s), it, w)),
    decreases it, 0int,
{
    reveal_with_fuel(statement_core_flow, 1);
    reveal_with_fuel(statement_may, 1);
    if let StatementKind::Switch { value, arms, else_body } = &it.kind {
        let inside = looping(s);
        lemma_expression(c, s, f, value);
        let (s1, head) = expression_flow(c, s, f, value);
        lemma_arms(c, s1, f, arms@, 0, seq![]);
        let (s2, alternatives) = arms_flow(c, s1, f, arms@, 0, seq![]);
        lemma_else(c, s2, f, else_body);
        lemma_covers(c, it.span);
        let other = else_flow(c, s2, f, else_body).1;
        let flows = match other {
            Some(other) => alternatives.push(other),
            None => if exhaustive(c, it.span) {
                alternatives
            } else {
                alternatives.push(dependent_flow(seq![it.span]))
            },
        };
        let count = arms@.len() as int;
        assert forall|i: int| 0 <= i < count implies #[trigger] flows[i] == alternatives[i] by {}
        lemma_alternatives(flows);
        let chosen = alternatives_flow(flows);
        let inner = |t: bool, w: Way|
            {
                ||| arms_may(c, t, inside, arms@, arms@.len() as int, w)
                ||| else_body is Some && else_may(c, t, inside, else_body, w)
                ||| else_body is None && w is Ends && !t && !covers_all(c, it.span)
            };
        assert forall|w: Way| #[trigger] shows(chosen, w) == inner(false, w) by {
            lemma_arms_may(c, false, inside, arms@, count, w);
            if shows(chosen, w) {
                let i = choose|i: int| 0 <= i < flows.len() && shows(#[trigger] flows[i], w);
                if i < count {
                    assert(shows(alternatives[i], w));
                    assert(entered(c, false, inside, arms@, i, w));
                } else {
                    assert(shows(flows[count], w));
                }
            }
            if arms_may(c, false, inside, arms@, count, w) {
                let i = choose|i: int| 0 <= i < count && #[trigger] entered(c, false, inside, arms@, i, w);
                assert(shows(alternatives[i], w));
                assert(shows(flows[i], w));
            }
            if flows.len() > count {
                assert(shows(flows[count], w) ==> shows(chosen, w));
            }
        }
        lemma_arms_may(c, true, inside, arms@, count, Way::Ends);
        if chosen.fallthrough == FallthroughKind::Definite {
            let i = choose|i: int|
                0 <= i < flows.len() && (#[trigger] flows[i]).fallthrough == FallthroughKind::Definite;
            if i < count {
                assert(alternatives[i].fallthrough == FallthroughKind::Definite);
                assert(entered(c, true, inside, arms@, i, Way::Ends));
            }
        }
        if arms_may(c, true, inside, arms@, count, Way::Ends) {
            let i = choose|i: int| 0 <= i < count && #[trigger] entered(c, true, inside, arms@, i, Way::Ends);
            assert(alternatives[i].fallthrough == FallthroughKind::Definite);
            assert(flows[i].fallthrough == FallthroughKind::Definite);
        }
        if flows.len() > count {
            assert(flows[count].fallthrough == FallthroughKind::Definite ==> chosen.fallthrough
                == FallthroughKind::Definite);
        }
        assert(tells(chosen, inner));
        let a = |t: bool, w: Way| expression_may(c, t, looping(s), value, w);
        lemma_sequence(head, chosen, a, inner);
        lemma_same(
            statement_core_flow(c, s, f, it).1,
            |t: bool, w: Way| after(a, inner, t, w),
            |t: bool, w: Way| statement_may(c, t, looping(s), it, w),
        );
    }
}

#[verifier::spinoff_prover]
#[verifier::rlimit(60)]
proof fn lemma_statement_core(c: FlowContext, s: FlowState, f: (FunctionId, TypeState), it: &Statement)
    ensures
        keeps(s, statement_core_flow(c, s, f, it).0),
        tells(statement_core_flow(c, s, f, it).1, |t: bool, w: Way| statement_may(c, t, looping(s), it, w)),
    decreases it, 1int,
{
    reveal_with_fuel(statement_core_flow, 1);
    reveal_with_fuel(statement_may, 1);
    let whole = |t: bool, w: Way| statement_may(c, t, looping(s), it, w);
    let got = statement_core_flow(c, s, f, it).1;
    match &it.kind {
        StatementKind::Local { initializer, .. } => {
            reveal(local_typed);
            lemma_expression(c, s, f, initializer);
            lemma_same(got, |t: bool, w: Way| expression_may(c, t, looping(s), initializer, w), whole);
        },
        StatementKind::Assignment { target, value, .. } => {
            lemma_target(c, s, f, target);
            let (s1, flow) = target_flow(c, s, f, target);
            lemma_expression(c, s1, f, value);
            let a = |t: bool, w: Way| target_may(c, t, looping(s), target, w);
            let b = |t: bool, w: Way| expression_may(c, t, looping(s), value, w);
            lemma_sequence(flow, expression_flow(c, s1, f, value).1, a, b);
            lemma_same(got, |t: bool, w: Way| after(a, b, t, w), whole);
        },
        StatementKind::Expression(expression) => {
            lemma_expression(c, s, f, expression);
            lemma_same(got, |t: bool, w: Way| expression_may(c, t, looping(s), expression, w), whole);
        },
        StatementKind::Return(value) => {
            reveal(return_noted);
            reveal(complained);
            let syntax = match value {
                Some(value) => Some(value.span),
                None => None,
            };
            let s1 = return_noted(c, s, f, it.span, syntax);
            lemma_value(c, s1, f, value);
            let evaluated = value_flow(c, s1, f, value).1;
            let a = |t: bool, w: Way| value_may(c, t, looping(s), value, w);
            assert(shows(evaluated, Way::Ends) == a(false, Way::Ends));
            assert forall|w: Way| #[trigger] shows(got, w) == whole(false, w) by {
                assert(shows(evaluated, w) == a(false, w));
            }
        },
        StatementKind::Break => {
            reveal(control_flow);
            reveal(complained);
            lemma_falls();
        },
        StatementKind::Continue => {
            reveal(control_flow);
            reveal(complained);
            lemma_falls();
        },
        StatementKind::If { .. } => lemma_if(c, s, f, it),
        StatementKind::While { condition, body } => {
            reveal(in_loop);
            reveal(out_of_loop);
            lemma_expression(c, s, f, condition);
            let (s1, head) = expression_flow(c, s, f, condition);
            lemma_statement_body(c, in_loop(s1, it.span), f, body);
            let (s2, inner) = statement_body_flow(c, in_loop(s1, it.span), f, body);
            assert(s2.loops.drop_last() =~= s.loops);
            let a = |t: bool, w: Way| expression_may(c, t, looping(s), condition, w);
            let b = |t: bool, w: Way| statement_body_may(c, t, true, body, w);
            lemma_loop(head, inner, a, b);
            lemma_same(
                got,
                |t: bool, w: Way|
                    (!(w is Ends) && a(t, w)) || (a(t, Way::Ends) && (w is Ends || ((w is Returns || w is Stops) && b(
                        t,
                        w,
                    )))),
                whole,
            );
        },
        StatementKind::For { iterable, body, .. } => {
            reveal(in_loop);
            reveal(out_of_loop);
            lemma_expression(c, s, f, iterable);
            let (s1, head) = expression_flow(c, s, f, iterable);
            lemma_statement_body(c, in_loop(s1, it.span), f, body);
            let (s2, inner) = statement_body_flow(c, in_loop(s1, it.span), f, body);
            assert(s2.loops.drop_last() =~= s.loops);
            let a = |t: bool, w: Way| expression_may(c, t, looping(s), iterable, w);
            let b = |t: bool, w: Way| statement_body_may(c, t, true, body, w);
            lemma_loop(head, inner, a, b);
            lemma_same(
                got,
                |t: bool, w: Way|
                    (!(w is Ends) && a(t, w)) || (a(t, Way::Ends) && (w is Ends || ((w is Returns || w is Stops) && b(
                        t,
                        w,
                    )))),
                whole,
            );
        },
        StatementKind::Switch { .. } => lemma_switch(c, s, f, it),
        StatementKind::Block(block) => {
            lemma_block(c, s, f, block);
            lemma_same(got, |t: bool, w: Way| block_may(c, t, looping(s), block, w), whole);
        },
    }
}

#[verifier::spinoff_prover]
proof fn lemma_statement(c: FlowContext, s: FlowState, f: (FunctionId, TypeState), it: &Statement)
    ensures
        keeps(s, statement_flow(c, s, f, it).0),
        tells(statement_flow(c, s, f, it).1, |t: bool, w: Way| statement_may(c, t, looping(s), it, w)),
    decreases it, 2int,
{
    reveal_with_fuel(statement_flow, 1);
    reveal(noted);
    lemma_statement_core(c, s, f, it);
}

#[verifier::spinoff_prover]
#[verifier::rlimit(60)]
proof fn lemma_expression_core(c: FlowContext, s: FlowState, f: (FunctionId, TypeState), it: &Expression)
    ensures
        keeps(s, expression_core_flow(c, s, f, it).0),
        tells(expression_core_flow(c, s, f, it).1, |t: bool, w: Way| expression_may(c, t, looping(s), it, w)),
    decreases it, 1int,
{
    reveal_with_fuel(expression_core_flow, 1);
    reveal_with_fuel(expression_may, 1);
    let whole = |t: bool, w: Way| expression_may(c, t, looping(s), it, w);
    let got = expression_core_flow(c, s, f, it).1;
    let start = |t: bool, w: Way| w is Ends;
    lemma_falls();
    match &it.kind {
        ExpressionKind::Parenthesized(inner) => {
            lemma_expression(c, s, f, inner);
            lemma_same(got, |t: bool, w: Way| expression_may(c, t, looping(s), inner, w), whole);
        },
        ExpressionKind::Conversion { operand, .. } => {
            lemma_expression(c, s, f, operand);
            lemma_same(got, |t: bool, w: Way| expression_may(c, t, looping(s), operand, w), whole);
        },
        ExpressionKind::Unary { operand, .. } => {
            lemma_expression(c, s, f, operand);
            lemma_same(got, |t: bool, w: Way| expression_may(c, t, looping(s), operand, w), whole);
        },
        ExpressionKind::Member { value, .. } => {
            lemma_expression(c, s, f, value);
            lemma_same(got, |t: bool, w: Way| expression_may(c, t, looping(s), value, w), whole);
        },
        ExpressionKind::Is { value, .. } => {
            lemma_expression(c, s, f, value);
            lemma_same(got, |t: bool, w: Way| expression_may(c, t, looping(s), value, w), whole);
        },
        ExpressionKind::Try { value, .. } => {
            lemma_expression(c, s, f, value);
            let x = |t: bool, w: Way| expression_may(c, t, looping(s), value, w);
            lemma_tried(c, it.span, expression_flow(c, s, f, value).1, x);
            lemma_same(got, |t: bool, w: Way| x(t, w) || (x(t, Way::Ends) && try_may(c, it.span, w)), whole);
        },
        ExpressionKind::List(elements) => {
            lemma_expressions(c, s, f, elements@, 0, fallthrough_flow(), start);
            lemma_same(
                got,
                |t: bool, w: Way| after(start, |t: bool, w: Way| expressions_may(c, t, looping(s), elements@, 0, w), t, w),
                whole,
            );
        },
        ExpressionKind::Mapping(entries) => {
            lemma_entries(c, s, f, entries@, 0, fallthrough_flow(), start);
            lemma_same(
                got,
                |t: bool, w: Way| after(start, |t: bool, w: Way| entries_may(c, t, looping(s), entries@, 0, w), t, w),
                whole,
            );
        },
        ExpressionKind::Block(block) => {
            lemma_block(c, s, f, block);
            lemma_same(got, |t: bool, w: Way| block_may(c, t, looping(s), block, w), whole);
        },
        ExpressionKind::If { .. } => lemma_if_expression(c, s, f, it),
        ExpressionKind::Binary { left, operator, right, .. } => {
            lemma_expression(c, s, f, left);
            let (s1, first) = expression_flow(c, s, f, left);
            lemma_expression(c, s1, f, right);
            let (s2, second) = expression_flow(c, s1, f, right);
            let x = |t: bool, w: Way| expression_may(c, t, looping(s), left, w);
            let y = |t: bool, w: Way| expression_may(c, t, looping(s), right, w);
            lemma_sequence(first, second, x, y);
            let joined = sequence_flow(first, second);
            let row = |t: bool, w: Way| after(x, y, t, w);
            if *operator == BinaryOperator::LogicalAnd || *operator == BinaryOperator::LogicalOr {
                reveal(decided);
                let flows = seq![first, joined];
                lemma_alternatives(flows);
                assert(flows[0] == first && flows[1] == joined);
                assert(got == alternatives_flow(flows));
                assert forall|w: Way| #[trigger] shows(got, w) == whole(false, w) by {
                    assert(shows(first, w) == x(false, w));
                    assert(shows(first, Way::Ends) == x(false, Way::Ends));
                    assert(shows(joined, w) == row(false, w));
                    assert(shows(flows[0], w) ==> shows(got, w));
                    assert(shows(flows[1], w) ==> shows(got, w));
                }
                assert(flows[0].fallthrough == FallthroughKind::Definite ==> got.fallthrough
                    == FallthroughKind::Definite);
            } else {
                lemma_same(got, row, whole);
            }
        },
        ExpressionKind::Index { value, index } => {
            lemma_expression(c, s, f, value);
            let (s1, first) = expression_flow(c, s, f, value);
            lemma_expression(c, s1, f, index);
            let (s2, second) = expression_flow(c, s1, f, index);
            let x = |t: bool, w: Way| expression_may(c, t, looping(s), value, w);
            let y = |t: bool, w: Way| expression_may(c, t, looping(s), index, w);
            lemma_sequence(first, second, x, y);
            let joined = sequence_flow(first, second);
            let row = |t: bool, w: Way| after(x, y, t, w);
            lemma_same(got, row, whole);
        },
        ExpressionKind::Call { callee, arguments } => {
            lemma_expression(c, s, f, callee);
            let (s1, flow) = expression_flow(c, s, f, callee);
            let x = |t: bool, w: Way| expression_may(c, t, looping(s), callee, w);
            lemma_arguments(c, s1, f, arguments@, 0, flow, x);
            let made = arguments_flow(c, s1, f, arguments@, 0, flow).1;
            let y = |t: bool, w: Way| after(x, |t: bool, w: Way| arguments_may(c, t, looping(s), arguments@, 0, w), t, w);
            assert(tells(made, y));
            lemma_stops(c, it.span);
            if panics(c, it.span) {
                assert(shows(made, Way::Ends) == y(false, Way::Ends));
                assert forall|w: Way| #[trigger] shows(got, w) == whole(false, w) by {
                    assert(shows(made, w) == y(false, w));
                }
            } else {
                lemma_same(got, y, whole);
            }
        },
        _ => {
            lemma_same(got, start, whole);
        },
    }
}

#[verifier::spinoff_prover]
proof fn lemma_expression(c: FlowContext, s: FlowState, f: (FunctionId, TypeState), it: &Expression)
    ensures
        keeps(s, expression_flow(c, s, f, it).0),
        tells(expression_flow(c, s, f, it).1, |t: bool, w: Way| expression_may(c, t, looping(s), it, w)),
    decreases it, 2int,
{
    reveal_with_fuel(expression_flow, 1);
    reveal(noted);
    lemma_expression_core(c, s, f, it);
}

/// The flow that is noted for a statement tells how it can be left: all of the ways in which it can be, and no others.
pub proof fn law_statement_flow_is_what_can_happen(
    c: FlowContext,
    s: FlowState,
    f: (FunctionId, TypeState),
    statement: &Statement,
)
    ensures
        ({
            let (after, flow) = statement_flow(c, s, f, statement);
            &&& after.summaries.last() == (FlowSubject::Statement(statement.span), flow)
            &&& tells(flow, |t: bool, w: Way| statement_may(c, t, s.loops.len() > 0, statement, w))
        }),
{
    lemma_statement(c, s, f, statement);
    reveal_with_fuel(statement_flow, 1);
    reveal(noted);
}

/// The flow that is noted for an expression tells how its evaluation can end.
pub proof fn law_expression_flow_is_what_can_happen(
    c: FlowContext,
    s: FlowState,
    f: (FunctionId, TypeState),
    e: &Expression,
)
    ensures
        ({
            let (after, flow) = expression_flow(c, s, f, e);
            &&& after.summaries.last() == (FlowSubject::Expression(e.span), flow)
            &&& tells(flow, |t: bool, w: Way| expression_may(c, t, s.loops.len() > 0, e, w))
        }),
{
    lemma_expression(c, s, f, e);
    reveal_with_fuel(expression_flow, 1);
    reveal(noted);
}

/// The flow that is noted for a block tells how it can be left.
pub proof fn law_block_flow_is_what_can_happen(
    c: FlowContext,
    s: FlowState,
    f: (FunctionId, TypeState),
    block: &Block,
)
    ensures
        ({
            let (after, flow) = block_flow(c, s, f, block);
            &&& after.summaries.last() == (FlowSubject::Block(block.span), flow)
            &&& tells(flow, |t: bool, w: Way| block_may(c, t, s.loops.len() > 0, block, w))
        }),
{
    lemma_block(c, s, f, block);
    reveal_with_fuel(block_flow, 1);
    reveal(noted);
}

/// Whether a function must give a value back, and has none to give at its end.
pub open spec fn owes_value(c: FlowContext, signature: FunctionSignature) -> bool {
    &&& signature.node.body.value is None
    &&& signature.result matches TypeState::Resolved(result) && result != unit_type() && unit_alternative(c, result)
        is None
}

/// A function that owes a value and can come to its end without one is reported; one that cannot is not, on that
/// account.
pub proof fn law_missing_returns_are_reported(c: FlowContext, s: FlowState, signature: FunctionSignature)
    requires
        owes_value(c, signature),
    ensures
        ({
            let body = &signature.node.body;
            let walked = block_flow(c, s, (signature.id, signature.result), body).0;
            let done = function_flow(c, s, signature);
            &&& block_may(c, true, s.loops.len() > 0, body, Way::Ends) ==> done.diagnostics.len() > 0
            &&& !block_may(c, false, s.loops.len() > 0, body, Way::Ends) ==> done.diagnostics == walked.diagnostics
        }),
{
    let f = (signature.id, signature.result);
    lemma_block(c, s, f, &signature.node.body);
    let (walked, flow) = block_flow(c, s, f, &signature.node.body);
    assert(shows(flow, Way::Ends) == block_may(c, false, looping(s), &signature.node.body, Way::Ends));
    reveal(ended);
    reveal(complained);
    reveal(put_off);
}

proof fn lemma_function(c: FlowContext, s: FlowState, signature: FunctionSignature)
    ensures
        keeps(s, function_flow(c, s, signature)),
{
    let f = (signature.id, signature.result);
    lemma_block(c, s, f, &signature.node.body);
    reveal(ended);
    reveal(complained);
    reveal(put_off);
}

proof fn lemma_functions(c: FlowContext, s: FlowState, signatures: Seq<FunctionSignature>, from: int, index: int)
    requires
        0 <= from <= signatures.len(),
        s.loops.len() == 0,
    ensures
        keeps(s, functions_flow(c, s, signatures, from)),
        from <= index < signatures.len() && functions_flow(c, s, signatures, from).diagnostics.len() == 0 && owes_value(
            c,
            signatures[index],
        ) ==> !block_may(c, true, false, &signatures[index].node.body, Way::Ends),
    decreases signatures.len() - from,
{
    if from < signatures.len() {
        let next = function_flow(c, s, signatures[from]);
        lemma_function(c, s, signatures[from]);
        lemma_functions(c, next, signatures, from + 1, index);
        if index == from && owes_value(c, signatures[index]) {
            law_missing_returns_are_reported(c, s, signatures[index]);
        }
    }
}

pub(crate) proof fn lemma_flow_keeps_errors(c: FlowContext, s: FlowState, signatures: Seq<FunctionSignature>)
    requires
        s.loops.len() == 0,
    ensures
        functions_flow(c, s, signatures, 0).diagnostics.len() >= s.diagnostics.len(),
{
    lemma_functions(c, s, signatures, 0, -1);
}

/// In a program without errors, a function that owes a value never comes to its end without one, unless a `switch`
/// without `else` lets it.
pub proof fn law_accepted_functions_return<'a>(
    before: &Analysis<'a>,
    middle: &Analysis<'a>,
    after: &Analysis<'a>,
    result: &SemanticResult,
    index: int,
)
    requires
        analyzed(before, middle, after, result),
        result.diagnostics@.len() == 0,
        0 <= index < middle.function_signatures@.len(),
    ensures
        ({
            let c = flow_context(middle, result.switches@, result.tries@);
            let signature = middle.function_signatures@[index];
            owes_value(c, signature) ==> !block_may(c, true, false, &signature.node.body, Way::Ends)
        }),
{
    let c = flow_context(middle, result.switches@, result.tries@);
    let u = after_unions(before);
    let m = mutability_rule(middle, u.diagnostics);
    lemma_functions(c, before_flow(middle, m.diagnostics, u.warnings), middle.function_signatures@, 0, index);
}

} // verus!
