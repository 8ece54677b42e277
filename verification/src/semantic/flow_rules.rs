//! How control flows through the parts of a program, and what is reported on the way.

use crate::analysis::{
    AlternativeView, Binding, BindingId, BindingNode, BindingType, CallResolution, CallTarget, CallableId,
    ExpressionAnnotation, Fact, FunctionId, FunctionSignature, IntrinsicId, ResolvedType, TypeDefinition,
    TypeDefinitionKind, TypeId, TypeState, UnionAlternative, latest, primitive_type, unit_type,
};
use crate::ast::{
    Argument, ArgumentKind, AssignmentTarget, AssignmentTargetSuffix, AssignmentTargetSuffixKind,
    BinaryOperator, Block, ConditionalExpressionBranch, ConditionalStatementBranch, Expression, ExpressionBody,
    ExpressionBodyKind, ExpressionKind, MapEntry, PrimitiveType, Statement, StatementBody, StatementBodyKind,
    StatementKind, SwitchArm,
};
use crate::diagnostic::{
    DiagnosticKind, DiagnosticView, MAX_SOURCE_ERRORS, MAX_SOURCE_WARNINGS, located, reported, source_error,
};
use crate::semantic::{DeferredFlowKind, FlowSubject, LoopControl, SwitchResolution, TryAction, TryResolution};
use crate::semantic::flow::{
    FallthroughKind, FlowFlags, FlowView, alternatives_flow, dependent_flow, fallthrough_flow, no_exit, sequence_flow,
    terminal_flow,
};
use crate::semantic::handoff::units_before;
use crate::source::{SourceFile, Span};
use vstd::prelude::*;

verus! {

/// The contents of the fact about a `return`.
pub struct ReturnView {
    pub statement: Span,
    pub function: FunctionId,
    pub value: Option<Span>,
    pub value_state: TypeState,
    pub unit_injection: Option<AlternativeView>,
}

/// The contents of the fact about an implicit completion.
pub struct CompletionView {
    pub function: FunctionId,
    pub body: Span,
    pub unit_injection: Option<AlternativeView>,
}

/// The contents of a decision that hangs on switches.
pub struct DeferredView {
    pub kind: DeferredFlowKind,
    pub switches: Seq<Span>,
}

/// What does not change while the flow of a program is found.
pub struct FlowContext<'a> {
    pub source: &'a SourceFile,
    pub types: Seq<ResolvedType>,
    pub definitions: Seq<TypeDefinition<'a>>,
    pub bindings: Seq<Binding>,
    pub calls: Seq<CallResolution>,
    pub switches: Seq<SwitchResolution>,
    pub tries: Seq<TryResolution>,
}

/// What grows while the flow of a program is found.
#[verifier::ext_equal]
pub struct FlowState {
    pub annotations: Seq<ExpressionAnnotation>,
    pub binding_types: Seq<BindingType>,
    pub diagnostics: Seq<DiagnosticView>,
    pub warnings: Seq<DiagnosticView>,
    pub summaries: Seq<(FlowSubject, FlowView)>,
    pub returns: Seq<ReturnView>,
    pub completions: Seq<CompletionView>,
    pub controls: Seq<LoopControl>,
    pub deferred: Seq<DeferredView>,
    pub loops: Seq<Span>,
}

/// What is known of the type of an expression.
pub open spec fn flow_type(s: FlowState, expression: Span) -> TypeState {
    match latest(s.annotations, expression) {
        Some(i) => s.annotations[i].state,
        None => TypeState::Error,
    }
}

/// The summary of a part is noted.
#[verifier::opaque]
pub open spec fn noted(s: FlowState, subject: FlowSubject, flow: FlowView) -> FlowState {
    FlowState { summaries: s.summaries.push((subject, flow)), ..s }
}

/// An error in the source is reported.
#[verifier::opaque]
pub open spec fn complained(c: FlowContext, s: FlowState, span: Span, message: Seq<char>) -> FlowState {
    FlowState {
        diagnostics: reported(s.diagnostics, source_error(c.source, span, message), MAX_SOURCE_ERRORS as nat),
        ..s
    }
}

/// A part that control never gets to is reported.
#[verifier::opaque]
pub open spec fn warned(c: FlowContext, s: FlowState, span: Span) -> FlowState {
    FlowState {
        warnings: reported(
            s.warnings,
            located(DiagnosticKind::SourceWarning, c.source, span, "unreachable source"@),
            MAX_SOURCE_WARNINGS as nat,
        ),
        ..s
    }
}

/// A decision is put off until switches are understood.
#[verifier::opaque]
pub open spec fn put_off(s: FlowState, kind: DeferredFlowKind, switches: Seq<Span>) -> FlowState {
    FlowState { deferred: s.deferred.push(DeferredView { kind, switches }), ..s }
}

/// Inside of one more loop.
#[verifier::opaque]
pub open spec fn in_loop(s: FlowState, span: Span) -> FlowState {
    FlowState { loops: s.loops.push(span), ..s }
}

/// Out of the innermost loop.
#[verifier::opaque]
pub open spec fn out_of_loop(s: FlowState) -> FlowState {
    FlowState {
        loops: if s.loops.len() > 0 {
            s.loops.drop_last()
        } else {
            s.loops
        },
        ..s
    }
}

/// How far control has got in a block.
pub struct Progress {
    pub flow: FlowView,
    /// The parts that follow are known to be out of reach.
    pub unreachable: bool,
    /// The switches that the last decision that was put off hangs on.
    pub pending: Seq<Span>,
}

/// One more part of a block.
#[verifier::opaque]
pub open spec fn advanced(
    c: FlowContext,
    s: FlowState,
    progress: Progress,
    subject: FlowSubject,
    span: Span,
    next: FlowView,
) -> (FlowState, Progress) {
    match progress.flow.fallthrough {
        FallthroughKind::Never => (
            if progress.unreachable {
                s
            } else {
                warned(c, s, span)
            },
            Progress { unreachable: true, ..progress },
        ),
        FallthroughKind::SwitchDependent => (
            if progress.pending == progress.flow.switches {
                s
            } else {
                put_off(s, DeferredFlowKind::Reachability { construct: subject }, progress.flow.switches)
            },
            Progress {
                flow: sequence_flow(progress.flow, next),
                pending: progress.flow.switches,
                ..progress
            },
        ),
        FallthroughKind::Definite => (
            s,
            Progress { flow: sequence_flow(progress.flow, next), pending: seq![], ..progress },
        ),
    }
}

/// The start of a block.
pub open spec fn at_start() -> Progress {
    Progress { flow: fallthrough_flow(), unreachable: false, pending: seq![] }
}

/// Statements from one on.
#[verifier::opaque]
pub open spec fn statements_flow(
    c: FlowContext,
    s: FlowState,
    function: (FunctionId, TypeState),
    statements: Seq<Statement>,
    from: int,
    progress: Progress,
) -> (FlowState, Progress)
    decreases statements, statements.len() - from,
{
    if from < 0 || from >= statements.len() {
        (s, progress)
    } else {
        let (s, next) = statement_flow(c, s, function, &statements[from]);
        let (s, progress) = advanced(
            c,
            s,
            progress,
            FlowSubject::Statement(statements[from].span),
            statements[from].span,
            next,
        );
        statements_flow(c, s, function, statements, from + 1, progress)
    }
}

#[verifier::opaque]
pub open spec fn block_flow(c: FlowContext, s: FlowState, function: (FunctionId, TypeState), block: &Block) -> (
    FlowState,
    FlowView,
)
    decreases block, 0int,
{
    let (s, progress) = statements_flow(c, s, function, block.statements@, 0, at_start());
    let (s, progress) = match &block.value {
        Some(value) => {
            let (s, next) = expression_flow(c, s, function, value);
            advanced(c, s, progress, FlowSubject::Expression(value.span), value.span, next)
        },
        None => (s, progress),
    };
    (noted(s, FlowSubject::Block(block.span), progress.flow), progress.flow)
}

#[verifier::opaque]
pub open spec fn statement_body_flow(
    c: FlowContext,
    s: FlowState,
    function: (FunctionId, TypeState),
    body: &StatementBody,
) -> (
    FlowState,
    FlowView,
)
    decreases body, 0int,
{
    let (s, flow) = match &body.kind {
        StatementBodyKind::Block(block) => block_flow(c, s, function, block),
        StatementBodyKind::Statement(statement) => statement_flow(c, s, function, statement),
    };
    (noted(s, FlowSubject::StatementBody(body.span), flow), flow)
}

#[verifier::opaque]
pub open spec fn expression_body_flow(
    c: FlowContext,
    s: FlowState,
    function: (FunctionId, TypeState),
    body: &ExpressionBody,
) -> (FlowState, FlowView)
    decreases body, 0int,
{
    let (s, flow) = match &body.kind {
        ExpressionBodyKind::Block(block) => block_flow(c, s, function, block),
        ExpressionBodyKind::Expression(expression) => expression_flow(c, s, function, expression),
    };
    (noted(s, FlowSubject::ExpressionBody(body.span), flow), flow)
}

/// The first binding from one on that a node introduces.
pub open spec fn introduced_from(bindings: Seq<Binding>, node: BindingNode, from: int) -> Option<BindingId>
    decreases bindings.len() - from,
{
    if from < 0 || from >= bindings.len() {
        None
    } else if bindings[from].node == node {
        Some(bindings[from].id)
    } else {
        introduced_from(bindings, node, from + 1)
    }
}

/// A local that was thought to hold no value gets the type of its initializer.
#[verifier::opaque]
pub open spec fn local_typed(c: FlowContext, s: FlowState, statement: Span, initializer: Span) -> FlowState {
    let state = flow_type(s, initializer);
    match introduced_from(c.bindings, BindingNode::Local(statement), 0) {
        Some(binding) => if binding.0 < s.binding_types.len() && s.binding_types[binding.0 as int].state
            == TypeState::Never && state is Resolved {
            FlowState {
                binding_types: s.binding_types.update(
                    binding.0 as int,
                    BindingType { binding: s.binding_types[binding.0 as int].binding, state },
                ),
                ..s
            }
        } else {
            s
        },
        None => s,
    }
}

/// The alternative of a union that carries just the unit type, if there is one such.
#[verifier::opaque]
pub open spec fn unit_alternative(c: FlowContext, ty: TypeId) -> Option<AlternativeView> {
    if ty.0 < c.types.len() {
        match c.types[ty.0 as int] {
            ResolvedType::Union(alternatives) => unit_in(alternatives@),
            ResolvedType::Nominal(declaration) => if declaration.0 < c.definitions.len() {
                match c.definitions[declaration.0 as int].kind {
                    TypeDefinitionKind::Union { alternatives, .. } => unit_in(alternatives@),
                    _ => None,
                }
            } else {
                None
            },
            _ => None,
        }
    } else {
        None
    }
}

pub open spec fn unit_in(alternatives: Seq<UnionAlternative>) -> Option<AlternativeView> {
    if units_before(alternatives, alternatives.len() as int) == 1 {
        Some(AlternativeView::Untagged(unit_type()))
    } else {
        None
    }
}

/// How a `return` without a value returns the unit value.
pub open spec fn unit_return(c: FlowContext, result: TypeState, value: Option<Span>) -> Option<AlternativeView> {
    match result {
        TypeState::Resolved(ty) => if value is None && ty != unit_type() {
            unit_alternative(c, ty)
        } else {
            None
        },
        _ => None,
    }
}

/// A `return` is noted, or refused where it lacks a value.
#[verifier::opaque]
pub open spec fn return_noted(
    c: FlowContext,
    s: FlowState,
    function: (FunctionId, TypeState),
    statement: Span,
    value: Option<Span>,
) -> FlowState {
    let unit_injection = unit_return(c, function.1, value);
    let fits = value is Some || function.1 == TypeState::Resolved(unit_type()) || unit_injection is Some;
    if fits {
        FlowState {
            returns: s.returns.push(
                ReturnView {
                    statement,
                    function: function.0,
                    value,
                    value_state: match value {
                        Some(value) => flow_type(s, value),
                        None => TypeState::Resolved(unit_type()),
                    },
                    unit_injection,
                },
            ),
            ..s
        }
    } else {
        complained(c, s, statement, "value-returning function requires a return value"@)
    }
}

/// A part that is left by a `return` where control gets to its end.
pub open spec fn returned_flow(evaluated: FlowView) -> FlowView {
    if evaluated.fallthrough == FallthroughKind::Never {
        evaluated
    } else {
        terminal_flow(FlowFlags { fallthrough: false, returns: true, ..evaluated.flags })
    }
}

/// A part that ends the program where control gets to its end.
pub open spec fn diverged_flow(evaluated: FlowView) -> FlowView {
    if evaluated.fallthrough == FallthroughKind::Never {
        evaluated
    } else {
        terminal_flow(FlowFlags { fallthrough: false, diverges: true, ..evaluated.flags })
    }
}

/// A `break` or `continue`.
#[verifier::opaque]
pub open spec fn control_flow(c: FlowContext, s: FlowState, breaks: bool, statement: Span) -> (FlowState, FlowView) {
    if s.loops.len() > 0 {
        (
            FlowState {
                controls: s.controls.push(LoopControl { statement, target: s.loops.last() }),
                ..s
            },
            terminal_flow(
                if breaks {
                    FlowFlags { breaks: true, ..no_exit() }
                } else {
                    FlowFlags { continues: true, ..no_exit() }
                },
            ),
        )
    } else {
        (
            complained(
                c,
                s,
                statement,
                if breaks {
                    "'break' is only valid inside a loop"@
                } else {
                    "'continue' is only valid inside a loop"@
                },
            ),
            fallthrough_flow(),
        )
    }
}

/// A loop: its end is reached as its condition is, and a `return` or the end of the program in its body stay.
pub open spec fn loop_flow(head: FlowView, body: FlowView) -> FlowView {
    if head.fallthrough == FallthroughKind::Never {
        head
    } else {
        FlowView {
            flags: FlowFlags {
                fallthrough: true,
                returns: head.flags.returns || body.flags.returns,
                diverges: head.flags.diverges || body.flags.diverges,
                ..head.flags
            },
            fallthrough: head.fallthrough,
            switches: head.switches,
        }
    }
}

/// Conditions and bodies of an `if` statement from one on: what is left where no condition held, and the
/// alternatives so far.
#[verifier::opaque]
pub open spec fn branches_flow(
    c: FlowContext,
    s: FlowState,
    function: (FunctionId, TypeState),
    branches: Seq<ConditionalStatementBranch>,
    from: int,
    remaining: FlowView,
    alternatives: Seq<FlowView>,
) -> (FlowState, FlowView, Seq<FlowView>)
    decreases branches, branches.len() - from,
{
    if from < 0 || from >= branches.len() {
        (s, remaining, alternatives)
    } else {
        let (s, condition, body) = branch_flow(c, s, function, &branches[from]);
        let remaining = sequence_flow(remaining, condition);
        branches_flow(
            c,
            s,
            function,
            branches,
            from + 1,
            remaining,
            alternatives.push(sequence_flow(remaining, body)),
        )
    }
}

#[verifier::opaque]
pub open spec fn branch_flow(
    c: FlowContext,
    s: FlowState,
    function: (FunctionId, TypeState),
    branch: &ConditionalStatementBranch,
) -> (FlowState, FlowView, FlowView)
    decreases branch, 0int,
{
    let (s, condition) = expression_flow(c, s, function, &branch.condition);
    let (s, body) = statement_body_flow(c, s, function, &branch.body);
    (s, condition, body)
}

/// Conditions and bodies of an `if` expression from one on.
#[verifier::opaque]
pub open spec fn choices_flow(
    c: FlowContext,
    s: FlowState,
    function: (FunctionId, TypeState),
    branches: Seq<ConditionalExpressionBranch>,
    from: int,
    remaining: FlowView,
    alternatives: Seq<FlowView>,
) -> (FlowState, FlowView, Seq<FlowView>)
    decreases branches, branches.len() - from,
{
    if from < 0 || from >= branches.len() {
        (s, remaining, alternatives)
    } else {
        let (s, condition, body) = choice_flow(c, s, function, &branches[from]);
        let remaining = sequence_flow(remaining, condition);
        choices_flow(
            c,
            s,
            function,
            branches,
            from + 1,
            remaining,
            alternatives.push(sequence_flow(remaining, body)),
        )
    }
}

#[verifier::opaque]
pub open spec fn choice_flow(
    c: FlowContext,
    s: FlowState,
    function: (FunctionId, TypeState),
    branch: &ConditionalExpressionBranch,
) -> (FlowState, FlowView, FlowView)
    decreases branch, 0int,
{
    let (s, condition) = expression_flow(c, s, function, &branch.condition);
    let (s, body) = expression_body_flow(c, s, function, &branch.body);
    (s, condition, body)
}

/// Arms of a `switch` from one on.
#[verifier::opaque]
pub open spec fn arms_flow(
    c: FlowContext,
    s: FlowState,
    function: (FunctionId, TypeState),
    arms: Seq<SwitchArm>,
    from: int,
    alternatives: Seq<FlowView>,
) -> (FlowState, Seq<FlowView>)
    decreases arms, arms.len() - from,
{
    if from < 0 || from >= arms.len() {
        (s, alternatives)
    } else {
        let (s, flow) = arm_flow(c, s, function, &arms[from]);
        arms_flow(c, s, function, arms, from + 1, alternatives.push(flow))
    }
}

#[verifier::opaque]
pub open spec fn arm_flow(c: FlowContext, s: FlowState, function: (FunctionId, TypeState), arm: &SwitchArm) -> (
    FlowState,
    FlowView,
)
    decreases arm, 0int,
{
    let (s, flow) = statement_body_flow(c, s, function, &arm.body);
    (noted(s, FlowSubject::SwitchArm(arm.span), flow), flow)
}

/// The first fact from one on about a node.
pub open spec fn first_fact<T: Fact>(facts: Seq<T>, node: Span, from: int) -> Option<int>
    decreases facts.len() - from,
{
    if from < 0 || from >= facts.len() {
        None
    } else if facts[from].about() == node {
        Some(from)
    } else {
        first_fact(facts, node, from + 1)
    }
}

/// Whether a `switch` is known to be exhaustive.
#[verifier::opaque]
pub open spec fn exhaustive(c: FlowContext, statement: Span) -> bool {
    first_fact(c.switches, statement, 0) matches Some(i) && c.switches[i].exhaustive
}

/// Suffixes of an assignment target from one on.
#[verifier::opaque]
pub open spec fn suffixes_flow(
    c: FlowContext,
    s: FlowState,
    function: (FunctionId, TypeState),
    suffixes: Seq<AssignmentTargetSuffix>,
    from: int,
    flow: FlowView,
) -> (FlowState, FlowView)
    decreases suffixes, suffixes.len() - from,
{
    if from < 0 || from >= suffixes.len() {
        (s, flow)
    } else {
        let (s, flow) = suffix_flow(c, s, function, &suffixes[from], flow);
        suffixes_flow(c, s, function, suffixes, from + 1, flow)
    }
}

#[verifier::opaque]
pub open spec fn suffix_flow(
    c: FlowContext,
    s: FlowState,
    function: (FunctionId, TypeState),
    suffix: &AssignmentTargetSuffix,
    flow: FlowView,
) -> (FlowState, FlowView)
    decreases suffix, 0int,
{
    match &suffix.kind {
        AssignmentTargetSuffixKind::Index(index) => {
            let (s, next) = expression_flow(c, s, function, index);
            (s, sequence_flow(flow, next))
        },
        AssignmentTargetSuffixKind::Member(_) => (s, flow),
    }
}

#[verifier::opaque]
pub open spec fn target_flow(
    c: FlowContext,
    s: FlowState,
    function: (FunctionId, TypeState),
    target: &AssignmentTarget,
) -> (
    FlowState,
    FlowView,
)
    decreases target, 0int,
{
    suffixes_flow(c, s, function, target.suffixes@, 0, fallthrough_flow())
}

/// A body that may be missing.
#[verifier::opaque]
pub open spec fn else_flow(
    c: FlowContext,
    s: FlowState,
    function: (FunctionId, TypeState),
    body: &Option<StatementBody>,
) -> (FlowState, Option<FlowView>)
    decreases body, 0int,
{
    match body {
        Some(body) => {
            let (s, flow) = statement_body_flow(c, s, function, body);
            (s, Some(flow))
        },
        None => (s, None),
    }
}

/// A value that may be missing.
#[verifier::opaque]
pub open spec fn value_flow(
    c: FlowContext,
    s: FlowState,
    function: (FunctionId, TypeState),
    value: &Option<Expression>,
) -> (FlowState, FlowView)
    decreases value, 0int,
{
    match value {
        Some(value) => expression_flow(c, s, function, value),
        None => (s, fallthrough_flow()),
    }
}

/// How control leaves a statement, before that is noted.
#[verifier::opaque]
pub open spec fn statement_core_flow(
    c: FlowContext,
    s: FlowState,
    function: (FunctionId, TypeState),
    statement: &Statement,
) -> (FlowState, FlowView)
    decreases statement, 0int,
{
    match &statement.kind {
        StatementKind::Local { initializer, .. } => {
            let (s, flow) = expression_flow(c, s, function, initializer);
            (local_typed(c, s, statement.span, initializer.span), flow)
        },
        StatementKind::Assignment { target, value, .. } => {
            let (s, flow) = target_flow(c, s, function, target);
            let (s, next) = expression_flow(c, s, function, value);
            (s, sequence_flow(flow, next))
        },
        StatementKind::Expression(expression) => expression_flow(c, s, function, expression),
        StatementKind::Return(value) => {
            let s = return_noted(
                c,
                s,
                function,
                statement.span,
                match value {
                    Some(value) => Some(value.span),
                    None => None,
                },
            );
            let (s, evaluated) = value_flow(c, s, function, value);
            (s, returned_flow(evaluated))
        },
        StatementKind::Break => control_flow(c, s, true, statement.span),
        StatementKind::Continue => control_flow(c, s, false, statement.span),
        StatementKind::If { branches, else_body } => {
            let (s, remaining, alternatives) = branches_flow(
                c,
                s,
                function,
                branches@,
                0,
                fallthrough_flow(),
                seq![],
            );
            let (s, other) = else_flow(c, s, function, else_body);
            (
                s,
                alternatives_flow(
                    alternatives.push(
                        match other {
                            Some(other) => sequence_flow(remaining, other),
                            None => remaining,
                        },
                    ),
                ),
            )
        },
        StatementKind::While { condition, body } => {
            let (s, head) = expression_flow(c, s, function, condition);
            let (s, inner) = statement_body_flow(c, in_loop(s, statement.span), function, body);
            (out_of_loop(s), loop_flow(head, inner))
        },
        StatementKind::For { iterable, body, .. } => {
            let (s, head) = expression_flow(c, s, function, iterable);
            let (s, inner) = statement_body_flow(c, in_loop(s, statement.span), function, body);
            (out_of_loop(s), loop_flow(head, inner))
        },
        StatementKind::Switch { value, arms, else_body } => {
            let (s, head) = expression_flow(c, s, function, value);
            let (s, alternatives) = arms_flow(c, s, function, arms@, 0, seq![]);
            let (s, other) = else_flow(c, s, function, else_body);
            let alternatives = match other {
                Some(other) => alternatives.push(other),
                None => if exhaustive(c, statement.span) {
                    alternatives
                } else {
                    alternatives.push(dependent_flow(seq![statement.span]))
                },
            };
            (s, sequence_flow(head, alternatives_flow(alternatives)))
        },
        StatementKind::Block(block) => block_flow(c, s, function, block),
    }
}

#[verifier::opaque]
pub open spec fn statement_flow(
    c: FlowContext,
    s: FlowState,
    function: (FunctionId, TypeState),
    statement: &Statement,
) -> (FlowState, FlowView)
    decreases statement, 1int,
{
    let (s, flow) = statement_core_flow(c, s, function, statement);
    (noted(s, FlowSubject::Statement(statement.span), flow), flow)
}

/// Expressions from one on, in a row.
#[verifier::opaque]
pub open spec fn expressions_flow(
    c: FlowContext,
    s: FlowState,
    function: (FunctionId, TypeState),
    expressions: Seq<Expression>,
    from: int,
    flow: FlowView,
) -> (FlowState, FlowView)
    decreases expressions, expressions.len() - from,
{
    if from < 0 || from >= expressions.len() {
        (s, flow)
    } else {
        let (s, next) = expression_flow(c, s, function, &expressions[from]);
        expressions_flow(c, s, function, expressions, from + 1, sequence_flow(flow, next))
    }
}

/// Map entries from one on, in a row.
#[verifier::opaque]
pub open spec fn entries_flow(
    c: FlowContext,
    s: FlowState,
    function: (FunctionId, TypeState),
    entries: Seq<MapEntry>,
    from: int,
    flow: FlowView,
) -> (FlowState, FlowView)
    decreases entries, entries.len() - from,
{
    if from < 0 || from >= entries.len() {
        (s, flow)
    } else {
        let (s, flow) = entry_flow(c, s, function, &entries[from], flow);
        entries_flow(c, s, function, entries, from + 1, flow)
    }
}

#[verifier::opaque]
pub open spec fn entry_flow(
    c: FlowContext,
    s: FlowState,
    function: (FunctionId, TypeState),
    entry: &MapEntry,
    flow: FlowView,
) -> (FlowState, FlowView)
    decreases entry, 0int,
{
    let (s, key) = expression_flow(c, s, function, &entry.key);
    let (s, value) = expression_flow(c, s, function, &entry.value);
    (s, sequence_flow(sequence_flow(flow, key), value))
}

/// Arguments from one on, in a row.
#[verifier::opaque]
pub open spec fn arguments_flow(
    c: FlowContext,
    s: FlowState,
    function: (FunctionId, TypeState),
    arguments: Seq<Argument>,
    from: int,
    flow: FlowView,
) -> (FlowState, FlowView)
    decreases arguments, arguments.len() - from,
{
    if from < 0 || from >= arguments.len() {
        (s, flow)
    } else {
        let (s, next) = argument_flow(c, s, function, &arguments[from]);
        arguments_flow(c, s, function, arguments, from + 1, sequence_flow(flow, next))
    }
}

#[verifier::opaque]
pub open spec fn argument_flow(
    c: FlowContext,
    s: FlowState,
    function: (FunctionId, TypeState),
    argument: &Argument,
) -> (
    FlowState,
    FlowView,
)
    decreases argument, 0int,
{
    match &argument.kind {
        ArgumentKind::Positional(value) => expression_flow(c, s, function, value),
        ArgumentKind::Named { value, .. } => expression_flow(c, s, function, value),
    }
}

/// The error path of a postfix `?`.
#[verifier::opaque]
pub open spec fn tried_flow(c: FlowContext, expression: Span, flow: FlowView) -> FlowView {
    if flow.fallthrough == FallthroughKind::Never {
        flow
    } else {
        match first_fact(c.tries, expression, 0) {
            None => flow,
            Some(i) => match c.tries[i].action {
                TryAction::Propagate { .. } => FlowView { flags: FlowFlags { returns: true, ..flow.flags }, ..flow },
                TryAction::Panic { .. } => FlowView { flags: FlowFlags { diverges: true, ..flow.flags }, ..flow },
            },
        }
    }
}

/// Whether a call is one that ends the program.
#[verifier::opaque]
pub open spec fn panics(c: FlowContext, call: Span) -> bool {
    latest(c.calls, call) matches Some(i) && c.calls[i].target == CallTarget::Callable(
        CallableId::Intrinsic(IntrinsicId::Panic),
    )
}

/// `and` and `or`: a right side that never ends leaves the value of the left one.
#[verifier::opaque]
pub open spec fn decided(s: FlowState, left: Span, expression: Span, left_flow: FlowView, flow: FlowView) -> FlowState {
    let bool_type = TypeState::Resolved(primitive_type(PrimitiveType::Bool));
    if left_flow.fallthrough != FallthroughKind::Never && flow.fallthrough != FallthroughKind::Never && flow_type(
        s,
        left,
    )
        == bool_type && flow_type(s, expression) == TypeState::Never {
        FlowState {
            annotations: s.annotations.push(ExpressionAnnotation { node: expression, state: bool_type }),
            ..s
        }
    } else {
        s
    }
}

/// How control leaves an expression, before that is noted.
#[verifier::opaque]
pub open spec fn expression_core_flow(
    c: FlowContext,
    s: FlowState,
    function: (FunctionId, TypeState),
    e: &Expression,
) -> (
    FlowState,
    FlowView,
)
    decreases e, 0int,
{
    match &e.kind {
        ExpressionKind::Unit => (s, fallthrough_flow()),
        ExpressionKind::Identifier(_) => (s, fallthrough_flow()),
        ExpressionKind::Integer => (s, fallthrough_flow()),
        ExpressionKind::Float => (s, fallthrough_flow()),
        ExpressionKind::String(_) => (s, fallthrough_flow()),
        ExpressionKind::Character(_) => (s, fallthrough_flow()),
        ExpressionKind::Boolean(_) => (s, fallthrough_flow()),
        ExpressionKind::TypedEmptyList(_) => (s, fallthrough_flow()),
        ExpressionKind::TypedEmptyMap(_) => (s, fallthrough_flow()),
        ExpressionKind::Parenthesized(inner) => expression_flow(c, s, function, inner),
        ExpressionKind::Conversion { operand, .. } => expression_flow(c, s, function, operand),
        ExpressionKind::Unary { operand, .. } => expression_flow(c, s, function, operand),
        ExpressionKind::Try { value, .. } => {
            let (s, flow) = expression_flow(c, s, function, value);
            (s, tried_flow(c, e.span, flow))
        },
        ExpressionKind::List(elements) => expressions_flow(c, s, function, elements@, 0, fallthrough_flow()),
        ExpressionKind::Mapping(entries) => entries_flow(c, s, function, entries@, 0, fallthrough_flow()),
        ExpressionKind::Block(block) => block_flow(c, s, function, block),
        ExpressionKind::If { branches, else_branch } => {
            let (s, remaining, alternatives) = choices_flow(
                c,
                s,
                function,
                branches@,
                0,
                fallthrough_flow(),
                seq![],
            );
            let (s, other) = expression_body_flow(c, s, function, else_branch);
            (s, alternatives_flow(alternatives.push(sequence_flow(remaining, other))))
        },
        ExpressionKind::Binary { left, operator, right, .. } => {
            let (s, first) = expression_flow(c, s, function, left);
            let (s, second) = expression_flow(c, s, function, right);
            if *operator == BinaryOperator::LogicalAnd || *operator == BinaryOperator::LogicalOr {
                let flow = alternatives_flow(seq![first, sequence_flow(first, second)]);
                (decided(s, left.span, e.span, first, flow), flow)
            } else {
                (s, sequence_flow(first, second))
            }
        },
        ExpressionKind::Is { value, .. } => expression_flow(c, s, function, value),
        ExpressionKind::Call { callee, arguments } => {
            let (s, flow) = expression_flow(c, s, function, callee);
            let (s, flow) = arguments_flow(c, s, function, arguments@, 0, flow);
            (
                s,
                if panics(c, e.span) {
                    diverged_flow(flow)
                } else {
                    flow
                },
            )
        },
        ExpressionKind::Index { value, index } => {
            let (s, first) = expression_flow(c, s, function, value);
            let (s, second) = expression_flow(c, s, function, index);
            (s, sequence_flow(first, second))
        },
        ExpressionKind::Member { value, .. } => expression_flow(c, s, function, value),
    }
}

#[verifier::opaque]
pub open spec fn expression_flow(c: FlowContext, s: FlowState, function: (FunctionId, TypeState), e: &Expression) -> (
    FlowState,
    FlowView,
)
    decreases e, 1int,
{
    let (s, flow) = expression_core_flow(c, s, function, e);
    (noted(s, FlowSubject::Expression(e.span), flow), flow)
}

/// The closing brace of a block.
pub open spec fn closing_brace(block: &Block) -> Span {
    Span {
        start: if block.span.end > 0 {
            (block.span.end - 1) as usize
        } else {
            0
        },
        ..block.span
    }
}

/// What the end of a function body gives back.
#[verifier::opaque]
pub open spec fn ended(
    c: FlowContext,
    s: FlowState,
    function: (FunctionId, TypeState),
    block: &Block,
    flow: FlowView,
) -> FlowState {
    let state = match &block.value {
        Some(value) => flow_type(s, value.span),
        None => TypeState::Resolved(unit_type()),
    };
    let s = match &block.value {
        Some(value) => if state is Deferred {
            put_off(
                s,
                DeferredFlowKind::FunctionFinalValue {
                    function: function.0,
                    body: block.span,
                    value: value.span,
                    declared_result: function.1,
                },
                flow.switches,
            )
        } else {
            s
        },
        None => s,
    };
    match function.1 {
        TypeState::Resolved(result) => if flow.fallthrough != FallthroughKind::Never && !(block.value is Some && !(state
            is Never)) {
            let unit_injection = unit_alternative(c, result);
            if result == unit_type() || unit_injection is Some {
                FlowState {
                    completions: s.completions.push(
                        CompletionView { function: function.0, body: block.span, unit_injection },
                    ),
                    ..s
                }
            } else if flow.fallthrough == FallthroughKind::Definite {
                complained(
                    c,
                    s,
                    closing_brace(block),
                    "value-returning function may fall through without returning a value"@,
                )
            } else {
                put_off(
                    s,
                    DeferredFlowKind::FunctionReturn { function: function.0, body: block.span },
                    flow.switches,
                )
            }
        } else {
            s
        },
        _ => s,
    }
}

/// One function.
pub open spec fn function_flow(c: FlowContext, s: FlowState, signature: FunctionSignature) -> FlowState {
    let function = (signature.id, signature.result);
    let (s, flow) = block_flow(c, s, function, &signature.node.body);
    ended(c, s, function, &signature.node.body, flow)
}

/// The functions from one on.
pub open spec fn functions_flow(
    c: FlowContext,
    s: FlowState,
    signatures: Seq<FunctionSignature>,
    from: int,
) -> FlowState
    decreases signatures.len() - from,
{
    if from < 0 || from >= signatures.len() {
        s
    } else {
        functions_flow(c, function_flow(c, s, signatures[from]), signatures, from + 1)
    }
}

} // verus!
