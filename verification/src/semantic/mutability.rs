//! Which changes a program makes, and whether it has the right to make them.

use crate::analysis::{
    AccessPathStep, Analysis, AssignmentAnnotation, BindingAccess, BindingId, BuiltinMethod, CallResolution,
    CallTarget, CallableId, DeferredId, FunctionId, NameResolution, ParameterSignature, ResolvedType,
    TupleMember, TypeDefinitionKind, TypeId, TypeState, UnionAlternative, alternative_payload, latest,
    latest_fact, payload_of, state_of, use_of,
};
use crate::ast::{Argument, AssignmentTarget, Expression, ExpressionKind, Member, Statement, StatementKind};
use crate::diagnostic::{Diagnostic, DiagnosticView, Diagnostics, MAX_SOURCE_ERRORS, reported, source_error};
use crate::lowering::rules::text_at;
use crate::lowering::steps::source_text;
use crate::semantic::{
    DeferredMutability, MutabilityOperation, MutabilityPath, MutabilityResolution, MutabilitySubject, PlaceStep,
};
use crate::semantic::subjects::{Node, Visit, program_visits, visit_program};
use crate::semantic::union_labels::passed;
use crate::semantic::union_rules::{member_named, position_at};
use crate::semantic::union_syntax::argument_value;
use crate::semantic::union_validator::{find_member, position};
use crate::source::Span;
use crate::text::same_text;
use vstd::prelude::*;

verus! {

/// The contents of a path to what is changed.
pub enum PathView {
    Assignment(Seq<AccessPathStep>),
    Expression(Seq<PlaceStep>),
}

/// The contents of a right to change something.
pub struct RightView {
    pub subject: MutabilitySubject,
    pub root: BindingId,
    pub access: BindingAccess,
    pub operation: MutabilityOperation,
    pub path: PathView,
}

impl MutabilityPath {
    pub open spec fn view(&self) -> PathView {
        match self {
            MutabilityPath::Assignment(steps) => PathView::Assignment(steps@),
            MutabilityPath::Expression(steps) => PathView::Expression(steps@),
        }
    }
}

impl MutabilityResolution {
    pub open spec fn view(&self) -> RightView {
        RightView {
            subject: self.subject,
            root: self.root,
            access: self.access,
            operation: self.operation,
            path: self.path@,
        }
    }
}

pub open spec fn right_views(rights: Seq<MutabilityResolution>) -> Seq<RightView> {
    Seq::new(rights.len(), |i: int| rights[i]@)
}

/// What is known of the changes that a program makes; each list is in source order.
#[verifier::ext_equal]
pub struct MutabilityState {
    pub diagnostics: Seq<DiagnosticView>,
    pub rights: Seq<RightView>,
    pub deferred: Seq<DeferredMutability>,
    pub subjects: Seq<MutabilitySubject>,
}

/// Where what asks for a change stands.
pub open spec fn subject_at(subject: MutabilitySubject) -> Span {
    match subject {
        MutabilitySubject::Assignment(target) => target,
        MutabilitySubject::Receiver { receiver, .. } => receiver,
        MutabilitySubject::Argument { argument, .. } => argument,
    }
}

pub open spec fn span_before(left: Span, right: Span) -> bool {
    left.start < right.start || left.start == right.start && left.end < right.end
}

/// The place among the first `count` spans behind all that do not come later.
pub open spec fn place_among(spans: Seq<Span>, span: Span, count: int) -> int
    decreases count,
{
    if count <= 0 {
        0
    } else if span_before(span, spans[count - 1]) {
        place_among(spans, span, count - 1)
    } else {
        count
    }
}

pub open spec fn right_spans(rights: Seq<RightView>) -> Seq<Span> {
    Seq::new(rights.len(), |i: int| subject_at(rights[i].subject))
}

pub open spec fn deferred_spans(deferred: Seq<DeferredMutability>) -> Seq<Span> {
    Seq::new(deferred.len(), |i: int| subject_at(deferred[i].subject))
}

pub open spec fn subject_spans(subjects: Seq<MutabilitySubject>) -> Seq<Span> {
    Seq::new(subjects.len(), |i: int| subject_at(subjects[i]))
}

/// A right is noted in its place.
#[verifier::opaque]
pub open spec fn granted(s: MutabilityState, right: RightView) -> MutabilityState {
    let spans = right_spans(s.rights);
    MutabilityState {
        rights: s.rights.insert(place_among(spans, subject_at(right.subject), spans.len() as int), right),
        ..s
    }
}

/// A decision is put off, in its place.
#[verifier::opaque]
pub open spec fn postponed(s: MutabilityState, deferred: DeferredMutability) -> MutabilityState {
    let spans = deferred_spans(s.deferred);
    MutabilityState {
        deferred: s.deferred.insert(place_among(spans, subject_at(deferred.subject), spans.len() as int), deferred),
        ..s
    }
}

/// What asks for a change is noted in its place.
#[verifier::opaque]
pub open spec fn asked(s: MutabilityState, subject: MutabilitySubject) -> MutabilityState {
    let spans = subject_spans(s.subjects);
    MutabilityState {
        subjects: s.subjects.insert(place_among(spans, subject_at(subject), spans.len() as int), subject),
        ..s
    }
}

/// An error in the source is reported.
#[verifier::opaque]
pub open spec fn denied(analysis: &Analysis, s: MutabilityState, span: Span, message: Seq<char>) -> MutabilityState {
    MutabilityState {
        diagnostics: reported(
            s.diagnostics,
            source_error(analysis.source, span, message),
            MAX_SOURCE_ERRORS as nat,
        ),
        ..s
    }
}

/// Whether a binding was declared as one that may be changed.
pub open spec fn may_change(analysis: &Analysis, root: BindingId) -> bool {
    root.0 < analysis.bindings@.len() && analysis.bindings@[root.0 as int].mutable
}

/// What is known of the type of a binding.
pub open spec fn root_state(analysis: &Analysis, root: BindingId) -> TypeState {
    if root.0 < analysis.binding_types@.len() {
        analysis.binding_types@[root.0 as int].state
    } else {
        TypeState::Error
    }
}

/// Whether values of a type are objects that a binding can be pointed at anew.
#[verifier::opaque]
pub open spec fn rebindable(analysis: &Analysis, state: TypeState) -> bool {
    match state {
        TypeState::Resolved(ty) => if ty.0 < analysis.types.entries@.len() {
            match analysis.types.entries@[ty.0 as int] {
                ResolvedType::List(_) => true,
                ResolvedType::Mapping { .. } => true,
                ResolvedType::Nominal(declaration) => declaration.0 < analysis.type_definitions@.len()
                    && analysis.type_definitions@[declaration.0 as int].kind is Struct,
                _ => false,
            }
        } else {
            false
        },
        _ => false,
    }
}

/// What an assignment does, or the suffix that it cannot assign to.
#[verifier::opaque]
pub open spec fn assignment_operation(state: TypeState, steps: Seq<AccessPathStep>, suffixes: nat) -> Result<
    MutabilityOperation,
    Span,
> {
    if state is Deferred && steps.len() != suffixes {
        Ok(MutabilityOperation::DeferredPath)
    } else if steps.len() == 0 {
        Ok(MutabilityOperation::Rebind)
    } else {
        match steps.last() {
            AccessPathStep::StructMember { .. } => Ok(MutabilityOperation::ReplaceStructField),
            AccessPathStep::TupleMember { suffix, .. } => Err(suffix),
            AccessPathStep::ListIndex { .. } => Ok(MutabilityOperation::ReplaceListElement),
            AccessPathStep::MapIndex { .. } => Ok(MutabilityOperation::ReplaceMapElement),
        }
    }
}

/// An assignment whose target is understood.
#[verifier::opaque]
pub open spec fn assignment_judged(
    analysis: &Analysis,
    s: MutabilityState,
    target: &AssignmentTarget,
    annotation: AssignmentAnnotation,
    root: BindingId,
    access: BindingAccess,
) -> MutabilityState {
    let subject = MutabilitySubject::Assignment(target.span);
    match assignment_operation(annotation.state, annotation.steps@, target.suffixes@.len()) {
        Err(suffix) => denied(analysis, s, suffix, "tuple members are immutable and cannot be assigned"@),
        Ok(operation) => {
            let s = asked(s, subject);
            match annotation.state {
                TypeState::Deferred(deferred) => postponed(
                    s,
                    DeferredMutability { subject, root: Some(root), access, operation, deferred },
                ),
                TypeState::Resolved(_) => if (operation != MutabilityOperation::Rebind || !rebindable(
                    analysis,
                    root_state(analysis, root),
                )) && !may_change(analysis, root) {
                    denied(analysis, s, target.root.span, "binding must be declared 'var' for this assignment"@)
                } else {
                    granted(
                        s,
                        RightView {
                            subject,
                            root,
                            access,
                            operation,
                            path: PathView::Assignment(annotation.steps@),
                        },
                    )
                },
                _ => s,
            }
        },
    }
}

/// An assignment.
#[verifier::opaque]
pub open spec fn assignment_rule(
    analysis: &Analysis,
    s: MutabilityState,
    target: &AssignmentTarget,
) -> MutabilityState {
    match (latest(analysis.assignment_targets@, target.span), use_of(analysis, target.root.span)) {
        (Some(i), Some(name_use)) => match analysis.assignment_targets@[i].root {
            Some(root) => assignment_judged(
                analysis,
                s,
                target,
                analysis.assignment_targets@[i],
                root,
                name_use.access,
            ),
            None => s,
        },
        _ => s,
    }
}

/// The place that an expression denotes.
pub enum PlaceView {
    Rooted { root: BindingId, steps: Seq<PlaceStep> },
    Deferred { root: Option<BindingId>, deferred: DeferredId },
    Unrooted,
}

/// The binding that a place is part of.
pub open spec fn place_root(analysis: &Analysis, e: &Expression) -> Option<BindingId>
    decreases e,
{
    match &e.kind {
        ExpressionKind::Parenthesized(inner) => place_root(analysis, inner),
        ExpressionKind::Member { value, .. } => place_root(analysis, value),
        ExpressionKind::Index { value, .. } => place_root(analysis, value),
        ExpressionKind::Identifier(identifier) => match use_of(analysis, identifier.span) {
            Some(name_use) => match name_use.resolution {
                NameResolution::Binding(binding) => Some(binding),
                _ => None,
            },
            None => None,
        },
        _ => None,
    }
}

/// Where the binding that a place is part of is named.
pub open spec fn root_span(e: &Expression) -> Span
    decreases e,
{
    match &e.kind {
        ExpressionKind::Parenthesized(inner) => root_span(inner),
        ExpressionKind::Member { value, .. } => root_span(value),
        ExpressionKind::Index { value, .. } => root_span(value),
        ExpressionKind::Identifier(identifier) => identifier.span,
        _ => e.span,
    }
}

/// The step that a member access takes.
#[verifier::opaque]
pub open spec fn member_step(analysis: &Analysis, node: Span, receiver: Span, member: Member) -> Option<PlaceStep> {
    match (state_of(analysis, receiver), state_of(analysis, node)) {
        (Some(TypeState::Resolved(ty)), Some(state)) => if ty.0 < analysis.types.entries@.len() {
            match analysis.types.entries@[ty.0 as int] {
                ResolvedType::Nominal(declaration) => if declaration.0 < analysis.type_definitions@.len() {
                    match (analysis.type_definitions@[declaration.0 as int].kind, member) {
                        (TypeDefinitionKind::Struct(members), Member::Named(name)) => match member_named(
                            analysis.source,
                            members@,
                            text_at(analysis.source, name.span),
                            0,
                        ) {
                            Some(field) => Some(
                                PlaceStep::StructMember {
                                    node,
                                    declaration,
                                    member: members@[field].node,
                                    storage: members@[field].storage,
                                    state,
                                },
                            ),
                            None => None,
                        },
                        (TypeDefinitionKind::Tuple(members), Member::TupleIndex(span)) => match position_at(
                            analysis.source,
                            span,
                        ) {
                            Some(position) => if position < members@.len() {
                                Some(
                                    PlaceStep::TupleMember {
                                        node,
                                        declaration,
                                        member: members@[position as int].node,
                                        position,
                                        state,
                                    },
                                )
                            } else {
                                None
                            },
                            None => None,
                        },
                        _ => None,
                    }
                } else {
                    None
                },
                _ => None,
            }
        } else {
            None
        },
        _ => None,
    }
}

/// The step that an index access takes.
#[verifier::opaque]
pub open spec fn index_step(analysis: &Analysis, node: Span, receiver: Span) -> Option<PlaceStep> {
    match (state_of(analysis, receiver), state_of(analysis, node)) {
        (Some(TypeState::Resolved(ty)), Some(state)) => if ty.0 < analysis.types.entries@.len() {
            match analysis.types.entries@[ty.0 as int] {
                ResolvedType::List(element) => Some(PlaceStep::ListIndex { node, element, state }),
                ResolvedType::Mapping { key, value } => Some(PlaceStep::MapIndex { node, key, value, state }),
                _ => None,
            }
        } else {
            None
        },
        _ => None,
    }
}

/// A place and one more step.
#[verifier::opaque]
pub open spec fn extended(
    analysis: &Analysis,
    receiver: &Expression,
    place: PlaceView,
    step: Option<PlaceStep>,
) -> PlaceView {
    match step {
        Some(step) => match place {
            PlaceView::Rooted { root, steps } => PlaceView::Rooted { root, steps: steps.push(step) },
            other => other,
        },
        None => match state_of(analysis, receiver.span) {
            Some(TypeState::Deferred(deferred)) => PlaceView::Deferred {
                root: place_root(analysis, receiver),
                deferred,
            },
            _ => PlaceView::Unrooted,
        },
    }
}

/// The place that a name denotes.
#[verifier::opaque]
pub open spec fn named_place(analysis: &Analysis, name: Span) -> PlaceView {
    match use_of(analysis, name) {
        Some(name_use) => match name_use.resolution {
            NameResolution::Binding(root) => match root_state(analysis, root) {
                TypeState::Deferred(deferred) => PlaceView::Deferred { root: Some(root), deferred },
                TypeState::Resolved(_) => PlaceView::Rooted { root, steps: seq![] },
                _ => PlaceView::Unrooted,
            },
            _ => PlaceView::Unrooted,
        },
        None => PlaceView::Unrooted,
    }
}

/// The place that an expression denotes.
pub open spec fn place_of(analysis: &Analysis, e: &Expression) -> PlaceView
    decreases e,
{
    match state_of(analysis, e.span) {
        Some(TypeState::Deferred(deferred)) => PlaceView::Deferred { root: place_root(analysis, e), deferred },
        _ => match &e.kind {
            ExpressionKind::Parenthesized(inner) => place_of(analysis, inner),
            ExpressionKind::Identifier(identifier) => named_place(analysis, identifier.span),
            ExpressionKind::Member { value, member } => extended(
                analysis,
                value,
                place_of(analysis, value),
                member_step(analysis, e.span, value.span, *member),
            ),
            ExpressionKind::Index { value, .. } => extended(
                analysis,
                value,
                place_of(analysis, value),
                index_step(analysis, e.span, value.span),
            ),
            _ => PlaceView::Unrooted,
        },
    }
}

/// A change of the place that an expression denotes.
#[verifier::opaque]
pub open spec fn place_judged(
    analysis: &Analysis,
    s: MutabilityState,
    subject: MutabilitySubject,
    e: &Expression,
    operation: MutabilityOperation,
) -> MutabilityState {
    let s = asked(s, subject);
    match place_of(analysis, e) {
        PlaceView::Rooted { root, steps } => if may_change(analysis, root) {
            granted(
                s,
                RightView {
                    subject,
                    root,
                    access: BindingAccess::Mutate,
                    operation,
                    path: PathView::Expression(steps),
                },
            )
        } else {
            denied(analysis, s, root_span(e), "binding must be declared 'var' for this mutation"@)
        },
        PlaceView::Deferred { root, deferred } => postponed(
            s,
            DeferredMutability { subject, root, access: BindingAccess::Mutate, operation, deferred },
        ),
        PlaceView::Unrooted => denied(analysis, s, e.span, "mutation requires a binding-rooted place"@),
    }
}

/// Whether a value of a type can lead to an object that can be changed; `visiting` is what it is part of.
pub open spec fn reaches(analysis: &Analysis, ty: TypeId, visiting: Seq<TypeId>) -> bool
    decreases analysis.types.entries@.len() - visiting.len(), 0int,
{
    let types = analysis.types.entries@;
    if visiting.contains(ty) || ty.0 >= types.len() || visiting.len() >= types.len() {
        false
    } else {
        match types[ty.0 as int] {
            ResolvedType::List(_) => true,
            ResolvedType::Mapping { .. } => true,
            ResolvedType::Unit => false,
            ResolvedType::Primitive(_) => false,
            ResolvedType::Union(alternatives) => any_reaches(
                analysis,
                alternative_payloads(alternatives@),
                0,
                visiting.push(ty),
            ),
            ResolvedType::Nominal(declaration) => if declaration.0 < analysis.type_definitions@.len() {
                match analysis.type_definitions@[declaration.0 as int].kind {
                    TypeDefinitionKind::Struct(_) => true,
                    TypeDefinitionKind::Tuple(members) => any_reaches(
                        analysis,
                        member_types(members@),
                        0,
                        visiting.push(ty),
                    ),
                    TypeDefinitionKind::Union { alternatives, .. } => any_reaches(
                        analysis,
                        alternative_payloads(alternatives@),
                        0,
                        visiting.push(ty),
                    ),
                    TypeDefinitionKind::Invalid => false,
                }
            } else {
                false
            },
        }
    }
}

/// What the alternatives of a union carry.
pub open spec fn alternative_payloads(alternatives: Seq<UnionAlternative>) -> Seq<TypeState> {
    Seq::new(alternatives.len(), |i: int| TypeState::Resolved(payload_of(alternatives[i]@)))
}

/// The types of the members of a tuple.
pub open spec fn member_types(members: Seq<TupleMember>) -> Seq<TypeState> {
    Seq::new(members.len(), |i: int| members[i].ty)
}

/// Whether one of the types from one on can lead to an object that can be changed.
pub open spec fn any_reaches(analysis: &Analysis, states: Seq<TypeState>, from: int, visiting: Seq<TypeId>) -> bool
    decreases analysis.types.entries@.len() - visiting.len(), states.len() - from + 1,
{
    if from < 0 || from >= states.len() {
        false
    } else {
        (states[from] matches TypeState::Resolved(ty) && reaches(analysis, ty, visiting)) || any_reaches(
            analysis,
            states,
            from + 1,
            visiting,
        )
    }
}

/// One argument of a call of a function.
#[verifier::opaque]
pub open spec fn argument_judged(
    analysis: &Analysis,
    s: MutabilityState,
    call: Span,
    function: FunctionId,
    parameter: ParameterSignature,
    argument: Argument,
) -> MutabilityState {
    if parameter.node.mutable && (parameter.ty matches TypeState::Resolved(ty) && reaches(analysis, ty, seq![])) {
        place_judged(
            analysis,
            s,
            MutabilitySubject::Argument { call, argument: argument.span },
            &passed(argument),
            MutabilityOperation::MutableArgument { function, parameter: parameter.binding },
        )
    } else {
        s
    }
}

/// The arguments of a call of a function from one on.
#[verifier::opaque]
pub open spec fn arguments_judged(
    analysis: &Analysis,
    s: MutabilityState,
    call: Span,
    function: FunctionId,
    parameters: Seq<ParameterSignature>,
    arguments: Seq<Argument>,
    from: int,
) -> MutabilityState
    decreases arguments.len() - from,
{
    if from < 0 || from >= arguments.len() || from >= parameters.len() {
        s
    } else {
        arguments_judged(
            analysis,
            argument_judged(analysis, s, call, function, parameters[from], arguments[from]),
            call,
            function,
            parameters,
            arguments,
            from + 1,
        )
    }
}

/// The built-in method that a name would stand for, if that changes its receiver.
pub open spec fn mutating_method(name: Seq<char>) -> Option<BuiltinMethod> {
    if name == "append"@ {
        Some(BuiltinMethod::ListAppend)
    } else if name == "removeIndex"@ {
        Some(BuiltinMethod::ListRemoveIndex)
    } else if name == "removeKey"@ {
        Some(BuiltinMethod::MapRemoveKey)
    } else {
        None
    }
}

pub open spec fn mutates(method: BuiltinMethod) -> bool {
    method == BuiltinMethod::ListAppend || method == BuiltinMethod::ListRemoveIndex || method
        == BuiltinMethod::MapRemoveKey
}

/// A call of something whose type is still open.
#[verifier::opaque]
pub open spec fn unknown_method(
    analysis: &Analysis,
    s: MutabilityState,
    call: Span,
    callee: &Expression,
) -> MutabilityState {
    match &callee.kind {
        ExpressionKind::Member { value, member } => match member {
            Member::Named(name) => {
                let state = match state_of(analysis, callee.span) {
                    Some(state) => Some(state),
                    None => state_of(analysis, call),
                };
                match (mutating_method(text_at(analysis.source, name.span)), state) {
                    (Some(method), Some(TypeState::Deferred(deferred))) => {
                        let subject = MutabilitySubject::Receiver { call, receiver: value.span };
                        postponed(
                            asked(s, subject),
                            DeferredMutability {
                                subject,
                                root: place_root(analysis, value),
                                access: BindingAccess::Mutate,
                                operation: MutabilityOperation::MutateReceiver(method),
                                deferred,
                            },
                        )
                    },
                    _ => s,
                }
            },
            _ => s,
        },
        _ => s,
    }
}

/// A call whose expression is at hand.
#[verifier::opaque]
pub open spec fn call_judged(
    analysis: &Analysis,
    s: MutabilityState,
    target: CallTarget,
    call: Span,
    callee: &Expression,
    arguments: Seq<Argument>,
) -> MutabilityState {
    match target {
        CallTarget::Builtin(method) => if mutates(method) {
            match &callee.kind {
                ExpressionKind::Member { value, .. } => place_judged(
                    analysis,
                    s,
                    MutabilitySubject::Receiver { call, receiver: value.span },
                    value,
                    MutabilityOperation::MutateReceiver(method),
                ),
                _ => s,
            }
        } else {
            s
        },
        CallTarget::Callable(CallableId::Function(function)) => if function.0
            < analysis.function_signatures@.len() {
            arguments_judged(
                analysis,
                s,
                call,
                function,
                analysis.function_signatures@[function.0 as int].parameters@,
                arguments,
                0,
            )
        } else {
            s
        },
        CallTarget::Expression => unknown_method(analysis, s, call, callee),
        _ => s,
    }
}

/// The first call expression among the visits from one on that stands at a span.
pub open spec fn call_at<'a>(visits: Seq<Visit<'a>>, span: Span, from: int) -> Option<&'a Expression>
    decreases visits.len() - from,
{
    if from < 0 || from >= visits.len() {
        None
    } else {
        match visits[from].node {
            Node::Expression(e) => if e.span == span && e.kind is Call {
                Some(e)
            } else {
                call_at(visits, span, from + 1)
            },
            _ => call_at(visits, span, from + 1),
        }
    }
}

/// A call.
#[verifier::opaque]
pub open spec fn call_rule(
    analysis: &Analysis,
    s: MutabilityState,
    visits: Seq<Visit>,
    resolution: CallResolution,
) -> MutabilityState {
    match call_at(visits, resolution.node, 0) {
        Some(e) => match &e.kind {
            ExpressionKind::Call { callee, arguments } => call_judged(
                analysis,
                s,
                resolution.target,
                resolution.node,
                callee,
                arguments@,
            ),
            _ => s,
        },
        None => s,
    }
}

/// The assignments among the visits from one on.
pub open spec fn assignments_rule(
    analysis: &Analysis,
    s: MutabilityState,
    visits: Seq<Visit>,
    from: int,
) -> MutabilityState
    decreases visits.len() - from,
{
    if from < 0 || from >= visits.len() {
        s
    } else {
        let s = match visits[from].node {
            Node::Statement(statement) => match &statement.kind {
                StatementKind::Assignment { target, .. } => assignment_rule(analysis, s, target),
                _ => s,
            },
            _ => s,
        };
        assignments_rule(analysis, s, visits, from + 1)
    }
}

/// The calls from one on.
pub open spec fn calls_rule(analysis: &Analysis, s: MutabilityState, visits: Seq<Visit>, from: int) -> MutabilityState
    decreases analysis.calls@.len() - from,
{
    if from < 0 || from >= analysis.calls@.len() {
        s
    } else {
        calls_rule(analysis, call_rule(analysis, s, visits, analysis.calls@[from]), visits, from + 1)
    }
}

/// The changes that a program makes: its assignments, and what it hands to calls that change it.
pub open spec fn mutability_rule(analysis: &Analysis, diagnostics: Seq<DiagnosticView>) -> MutabilityState {
    let s = MutabilityState { diagnostics, rights: seq![], deferred: seq![], subjects: seq![] };
    let visits = program_visits(analysis.program);
    calls_rule(analysis, assignments_rule(analysis, s, visits, 0), visits, 0)
}

/// A place that an expression denotes.
#[derive(Debug)]
pub enum Place {
    Rooted { root: BindingId, steps: Vec<PlaceStep> },
    Deferred { root: Option<BindingId>, deferred: DeferredId },
    Unrooted,
}

impl Place {
    pub open spec fn view(&self) -> PlaceView {
        match self {
            Place::Rooted { root, steps } => PlaceView::Rooted { root: *root, steps: steps@ },
            Place::Deferred { root, deferred } => PlaceView::Deferred { root: *root, deferred: *deferred },
            Place::Unrooted => PlaceView::Unrooted,
        }
    }
}

/// The changes that a program makes, as far as they have been looked at.
#[derive(Debug)]
pub struct MutabilityValidator<'a> {
    pub analysis: &'a Analysis<'a>,
    pub diagnostics: Diagnostics,
    pub resolutions: Vec<MutabilityResolution>,
    pub deferred: Vec<DeferredMutability>,
    pub subjects: Vec<MutabilitySubject>,
}

impl MutabilitySubject {
    pub fn span(&self) -> (result: Span)
        ensures
            result == subject_at(*self),
    {
        match self {
            MutabilitySubject::Assignment(target) => *target,
            MutabilitySubject::Receiver { receiver, .. } => *receiver,
            MutabilitySubject::Argument { argument, .. } => *argument,
        }
    }
}

fn comes_before(left: Span, right: Span) -> (result: bool)
    ensures
        result == span_before(left, right),
{
    left.start < right.start || left.start == right.start && left.end < right.end
}

impl<'a> MutabilityValidator<'a> {
    pub open spec fn view(&self) -> MutabilityState {
        MutabilityState {
            diagnostics: self.diagnostics@,
            rights: right_views(self.resolutions@),
            deferred: self.deferred@,
            subjects: self.subjects@,
        }
    }

    pub open spec fn ready(&self) -> bool {
        self.analysis.source.wf() && self.diagnostics.wf()
    }

    pub open spec fn continues(&self, before: &Self) -> bool {
        &&& self.ready()
        &&& self.analysis == before.analysis
        &&& self.diagnostics@.len() >= before.diagnostics@.len()
    }

    fn grant(&mut self, right: MutabilityResolution)
        requires
            old(self).ready(),
        ensures
            final(self).continues(old(self)),
            final(self)@ == granted(old(self)@, right@),
    {
        proof {
            reveal(granted);
        }
        let ghost spans = right_spans(self@.rights);
        let span = right.subject.span();
        let mut place = self.resolutions.len();
        while place > 0 && comes_before(span, self.resolutions[place - 1].subject.span())
            invariant
                place <= self.resolutions@.len(),
                spans == right_spans(self@.rights),
                place_among(spans, span, place as int) == place_among(spans, span, spans.len() as int),
            decreases place,
        {
            assert(spans[place - 1] == subject_at(self.resolutions@[place - 1].subject));
            place -= 1;
        }
        if place > 0 {
            assert(spans[place - 1] == subject_at(self.resolutions@[place - 1].subject));
        }
        self.resolutions.insert(place, right);
        assert(self@ =~= granted(old(self)@, right@));
    }

    fn postpone(&mut self, deferred: DeferredMutability)
        requires
            old(self).ready(),
        ensures
            final(self).continues(old(self)),
            final(self)@ == postponed(old(self)@, deferred),
    {
        proof {
            reveal(postponed);
        }
        let ghost spans = deferred_spans(self@.deferred);
        let span = deferred.subject.span();
        let mut place = self.deferred.len();
        while place > 0 && comes_before(span, self.deferred[place - 1].subject.span())
            invariant
                place <= self.deferred@.len(),
                spans == deferred_spans(self@.deferred),
                place_among(spans, span, place as int) == place_among(spans, span, spans.len() as int),
            decreases place,
        {
            assert(spans[place - 1] == subject_at(self.deferred@[place - 1].subject));
            place -= 1;
        }
        if place > 0 {
            assert(spans[place - 1] == subject_at(self.deferred@[place - 1].subject));
        }
        self.deferred.insert(place, deferred);
        assert(self@ =~= postponed(old(self)@, deferred));
    }

    fn ask(&mut self, subject: MutabilitySubject)
        requires
            old(self).ready(),
        ensures
            final(self).continues(old(self)),
            final(self)@ == asked(old(self)@, subject),
    {
        proof {
            reveal(asked);
        }
        let ghost spans = subject_spans(self@.subjects);
        let span = subject.span();
        let mut place = self.subjects.len();
        while place > 0 && comes_before(span, self.subjects[place - 1].span())
            invariant
                place <= self.subjects@.len(),
                spans == subject_spans(self@.subjects),
                place_among(spans, span, place as int) == place_among(spans, span, spans.len() as int),
            decreases place,
        {
            assert(spans[place - 1] == subject_at(self.subjects@[place - 1]));
            place -= 1;
        }
        if place > 0 {
            assert(spans[place - 1] == subject_at(self.subjects@[place - 1]));
        }
        self.subjects.insert(place, subject);
        assert(self@ =~= asked(old(self)@, subject));
    }

    fn deny(&mut self, span: Span, message: &str)
        requires
            old(self).ready(),
        ensures
            final(self).continues(old(self)),
            final(self)@ == denied(old(self).analysis, old(self)@, span, message@),
    {
        proof {
            reveal(denied);
        }
        self.diagnostics.push(Diagnostic::source(self.analysis.source, span, message));
        assert(self@ =~= denied(old(self).analysis, old(self)@, span, message@));
    }

    fn may_change(&self, root: BindingId) -> (result: bool)
        ensures
            result == may_change(self.analysis, root),
    {
        root.0 < self.analysis.bindings.len() && self.analysis.bindings[root.0].mutable
    }

    fn root_state(&self, root: BindingId) -> (result: TypeState)
        ensures
            result == root_state(self.analysis, root),
    {
        if root.0 < self.analysis.binding_types.len() {
            self.analysis.binding_types[root.0].state
        } else {
            TypeState::Error
        }
    }

    fn is_directly_rebindable_object(&self, state: TypeState) -> (result: bool)
        ensures
            result == rebindable(self.analysis, state),
    {
        proof {
            reveal(rebindable);
        }
        let ty = match state {
            TypeState::Resolved(ty) => ty,
            _ => return false,
        };
        if ty.0 >= self.analysis.types.entries.len() {
            return false;
        }
        match &self.analysis.types.entries[ty.0] {
            ResolvedType::List(_) | ResolvedType::Mapping { .. } => true,
            ResolvedType::Nominal(declaration) => {
                if declaration.0 >= self.analysis.type_definitions.len() {
                    return false;
                }
                match &self.analysis.type_definitions[declaration.0].kind {
                    TypeDefinitionKind::Struct(_) => true,
                    _ => false,
                }
            },
            _ => false,
        }
    }

    fn judge_assignment(
        &mut self,
        target: &AssignmentTarget,
        annotation: &AssignmentAnnotation,
        root: BindingId,
        access: BindingAccess,
    )
        requires
            old(self).ready(),
        ensures
            final(self).continues(old(self)),
            final(self)@ == assignment_judged(
                old(self).analysis,
                old(self)@,
                target,
                *annotation,
                root,
                access,
            ),
    {
        proof {
            reveal(assignment_judged);
        }
        let subject = MutabilitySubject::Assignment(target.span);
        match operation_of(annotation.state, &annotation.steps, target.suffixes.len()) {
            Err(suffix) => self.deny(suffix, "tuple members are immutable and cannot be assigned"),
            Ok(operation) => {
                self.ask(subject);
                match annotation.state {
                    TypeState::Deferred(deferred) => self.postpone(
                        DeferredMutability { subject, root: Some(root), access, operation, deferred },
                    ),
                    TypeState::Resolved(_) => {
                        let state = self.root_state(root);
                        let needs_var = operation != MutabilityOperation::Rebind
                            || !self.is_directly_rebindable_object(state);
                        if needs_var && !self.may_change(root) {
                            self.deny(target.root.span, "binding must be declared 'var' for this assignment");
                        } else {
                            let steps = copy_steps(&annotation.steps);
                            self.grant(
                                MutabilityResolution {
                                    subject,
                                    root,
                                    access,
                                    operation,
                                    path: MutabilityPath::Assignment(steps),
                                },
                            );
                        }
                    },
                    _ => {},
                }
            },
        }
    }

    fn validate_assignment(&mut self, target: &AssignmentTarget)
        requires
            old(self).ready(),
        ensures
            final(self).continues(old(self)),
            final(self)@ == assignment_rule(old(self).analysis, old(self)@, target),
    {
        proof {
            reveal(assignment_rule);
        }
        let analysis = self.analysis;
        if let (Some(index), Some(name_use)) = (
            latest_fact(&analysis.assignment_targets, target.span),
            analysis.name_use(target.root.span),
        ) {
            if let Some(root) = analysis.assignment_targets[index].root {
                self.judge_assignment(target, &analysis.assignment_targets[index], root, name_use.access);
            }
        }
    }

    fn place_root(&self, e: &Expression) -> (result: Option<BindingId>)
        ensures
            result == place_root(self.analysis, e),
        decreases e,
    {
        match &e.kind {
            ExpressionKind::Parenthesized(inner) => self.place_root(inner),
            ExpressionKind::Member { value, .. } => self.place_root(value),
            ExpressionKind::Index { value, .. } => self.place_root(value),
            ExpressionKind::Identifier(identifier) => match self.analysis.name_use(identifier.span) {
                Some(name_use) => match name_use.resolution {
                    NameResolution::Binding(binding) => Some(binding),
                    _ => None,
                },
                None => None,
            },
            _ => None,
        }
    }

    #[verifier::spinoff_prover]
    fn member_step(&self, node: Span, receiver: Span, member: Member) -> (result: Option<PlaceStep>)
        ensures
            result == member_step(self.analysis, node, receiver, member),
    {
        proof {
            reveal(member_step);
        }
        let (ty, state) = match (self.analysis.expression_state(receiver), self.analysis.expression_state(node)) {
            (Some(TypeState::Resolved(ty)), Some(state)) => (ty, state),
            _ => return None,
        };
        if ty.0 >= self.analysis.types.entries.len() {
            return None;
        }
        let declaration = match &self.analysis.types.entries[ty.0] {
            ResolvedType::Nominal(declaration) => *declaration,
            _ => return None,
        };
        if declaration.0 >= self.analysis.type_definitions.len() {
            return None;
        }
        match (&self.analysis.type_definitions[declaration.0].kind, member) {
            (TypeDefinitionKind::Struct(members), Member::Named(name)) => {
                let wanted = source_text(self.analysis, name.span);
                match find_member(self.analysis, members, &wanted) {
                    Some(field) => Some(
                        PlaceStep::StructMember {
                            node,
                            declaration,
                            member: members[field].node,
                            storage: members[field].storage,
                            state,
                        },
                    ),
                    None => None,
                }
            },
            (TypeDefinitionKind::Tuple(members), Member::TupleIndex(span)) => match position(self.analysis, span) {
                Some(position) => if position < members.len() {
                    Some(
                        PlaceStep::TupleMember {
                            node,
                            declaration,
                            member: members[position].node,
                            position,
                            state,
                        },
                    )
                } else {
                    None
                },
                None => None,
            },
            _ => None,
        }
    }

    fn index_step(&self, node: Span, receiver: Span) -> (result: Option<PlaceStep>)
        ensures
            result == index_step(self.analysis, node, receiver),
    {
        proof {
            reveal(index_step);
        }
        let (ty, state) = match (self.analysis.expression_state(receiver), self.analysis.expression_state(node)) {
            (Some(TypeState::Resolved(ty)), Some(state)) => (ty, state),
            _ => return None,
        };
        if ty.0 >= self.analysis.types.entries.len() {
            return None;
        }
        match &self.analysis.types.entries[ty.0] {
            ResolvedType::List(element) => Some(PlaceStep::ListIndex { node, element: *element, state }),
            ResolvedType::Mapping { key, value } => Some(
                PlaceStep::MapIndex { node, key: *key, value: *value, state },
            ),
            _ => None,
        }
    }

    fn extend(&self, receiver: &Expression, place: Place, step: Option<PlaceStep>) -> (result: Place)
        ensures
            result@ == extended(self.analysis, receiver, place@, step),
    {
        proof {
            reveal(extended);
        }
        match step {
            Some(step) => match place {
                Place::Rooted { root, steps } => {
                    let mut steps = steps;
                    steps.push(step);
                    Place::Rooted { root, steps }
                },
                other => other,
            },
            None => match self.analysis.expression_state(receiver.span) {
                Some(TypeState::Deferred(deferred)) => Place::Deferred { root: self.place_root(receiver), deferred },
                _ => Place::Unrooted,
            },
        }
    }

    fn named_place(&self, name: Span) -> (result: Place)
        ensures
            result@ == named_place(self.analysis, name),
    {
        proof {
            reveal(named_place);
        }
        let root = match self.analysis.name_use(name) {
            Some(name_use) => match name_use.resolution {
                NameResolution::Binding(root) => root,
                _ => return Place::Unrooted,
            },
            None => return Place::Unrooted,
        };
        match self.root_state(root) {
            TypeState::Deferred(deferred) => Place::Deferred { root: Some(root), deferred },
            TypeState::Resolved(_) => {
                let steps: Vec<PlaceStep> = Vec::new();
                assert(steps@ =~= seq![]);
                Place::Rooted { root, steps }
            },
            _ => Place::Unrooted,
        }
    }

    /// The place that an expression denotes.
    fn classify_place(&self, e: &Expression) -> (result: Place)
        ensures
            result@ == place_of(self.analysis, e),
        decreases e,
    {
        if let Some(TypeState::Deferred(deferred)) = self.analysis.expression_state(e.span) {
            return Place::Deferred { root: self.place_root(e), deferred };
        }
        match &e.kind {
            ExpressionKind::Parenthesized(inner) => self.classify_place(inner),
            ExpressionKind::Identifier(identifier) => self.named_place(identifier.span),
            ExpressionKind::Member { value, member } => {
                let step = self.member_step(e.span, value.span, *member);
                let place = self.classify_place(value);
                self.extend(value, place, step)
            },
            ExpressionKind::Index { value, .. } => {
                let step = self.index_step(e.span, value.span);
                let place = self.classify_place(value);
                self.extend(value, place, step)
            },
            _ => Place::Unrooted,
        }
    }

    /// A change of the place that an expression denotes.
    fn authorize_place(&mut self, subject: MutabilitySubject, e: &Expression, operation: MutabilityOperation)
        requires
            old(self).ready(),
        ensures
            final(self).continues(old(self)),
            final(self)@ == place_judged(old(self).analysis, old(self)@, subject, e, operation),
    {
        proof {
            reveal(place_judged);
        }
        self.ask(subject);
        match self.classify_place(e) {
            Place::Rooted { root, steps } => {
                if self.may_change(root) {
                    self.grant(
                        MutabilityResolution {
                            subject,
                            root,
                            access: BindingAccess::Mutate,
                            operation,
                            path: MutabilityPath::Expression(steps),
                        },
                    );
                } else {
                    self.deny(root_use_span(e), "binding must be declared 'var' for this mutation");
                }
            },
            Place::Deferred { root, deferred } => self.postpone(
                DeferredMutability { subject, root, access: BindingAccess::Mutate, operation, deferred },
            ),
            Place::Unrooted => self.deny(e.span, "mutation requires a binding-rooted place"),
        }
    }

    /// Whether a value of a type can lead to an object that can be changed.
    #[verifier::spinoff_prover]
    fn can_reach_mutable_object(&self, ty: TypeId, visiting: &Vec<TypeId>) -> (result: bool)
        ensures
            result == reaches(self.analysis, ty, visiting@),
        decreases self.analysis.types.entries@.len() - visiting@.len(), 0int,
    {
        let types = &self.analysis.types.entries;
        if holds_type(visiting, ty) || ty.0 >= types.len() || visiting.len() >= types.len() {
            return false;
        }
        let states = match &types[ty.0] {
            ResolvedType::List(_) | ResolvedType::Mapping { .. } => return true,
            ResolvedType::Unit | ResolvedType::Primitive(_) => return false,
            ResolvedType::Union(alternatives) => payload_states(alternatives),
            ResolvedType::Nominal(declaration) => {
                if declaration.0 >= self.analysis.type_definitions.len() {
                    return false;
                }
                match &self.analysis.type_definitions[declaration.0].kind {
                    TypeDefinitionKind::Struct(_) => return true,
                    TypeDefinitionKind::Tuple(members) => member_states(members),
                    TypeDefinitionKind::Union { alternatives, .. } => payload_states(alternatives),
                    TypeDefinitionKind::Invalid => return false,
                }
            },
        };
        let mut deeper = copy_types(visiting);
        deeper.push(ty);
        assert(deeper@ =~= visiting@.push(ty));
        self.any_can_reach(&states, 0, &deeper)
    }

    #[verifier::spinoff_prover]
    fn any_can_reach(&self, states: &Vec<TypeState>, from: usize, visiting: &Vec<TypeId>) -> (result: bool)
        requires
            from <= states@.len(),
        ensures
            result == any_reaches(self.analysis, states@, from as int, visiting@),
        decreases self.analysis.types.entries@.len() - visiting@.len(), states@.len() - from + 1,
    {
        if from >= states.len() {
            return false;
        }
        let found = match states[from] {
            TypeState::Resolved(ty) => self.can_reach_mutable_object(ty, visiting),
            _ => false,
        };
        found || self.any_can_reach(states, from + 1, visiting)
    }

    fn judge_argument(
        &mut self,
        call: Span,
        function: FunctionId,
        parameter: &ParameterSignature,
        argument: &Argument,
    )
        requires
            old(self).ready(),
        ensures
            final(self).continues(old(self)),
            final(self)@ == argument_judged(old(self).analysis, old(self)@, call, function, *parameter, *argument),
    {
        proof {
            reveal(argument_judged);
        }
        let none: Vec<TypeId> = Vec::new();
        assert(none@ =~= seq![]);
        let reachable = match parameter.ty {
            TypeState::Resolved(ty) => self.can_reach_mutable_object(ty, &none),
            _ => false,
        };
        if parameter.node.mutable && reachable {
            self.authorize_place(
                MutabilitySubject::Argument { call, argument: argument.span },
                argument_value(argument),
                MutabilityOperation::MutableArgument { function, parameter: parameter.binding },
            );
        }
    }

    #[verifier::loop_isolation(false)]
    fn judge_arguments(&mut self, call: Span, function: FunctionId, arguments: &Vec<Argument>)
        requires
            old(self).ready(),
            function.0 < old(self).analysis.function_signatures@.len(),
        ensures
            final(self).continues(old(self)),
            final(self)@ == arguments_judged(
                old(self).analysis,
                old(self)@,
                call,
                function,
                old(self).analysis.function_signatures@[function.0 as int].parameters@,
                arguments@,
                0,
            ),
    {
        proof {
            reveal_with_fuel(arguments_judged, 1);
        }
        let analysis = self.analysis;
        let parameters = &analysis.function_signatures[function.0].parameters;
        let ghost whole = arguments_judged(analysis, self@, call, function, parameters@, arguments@, 0);
        let mut index: usize = 0;
        while index < arguments.len() && index < parameters.len()
            invariant
                index <= arguments@.len(),
                index <= parameters@.len(),
                self.continues(old(self)),
                arguments_judged(analysis, self@, call, function, parameters@, arguments@, index as int) == whole,
            decreases arguments@.len() - index,
        {
            self.judge_argument(call, function, &parameters[index], &arguments[index]);
            index += 1;
        }
    }

    fn defer_unknown_mutating_method(&mut self, call: Span, callee: &Expression)
        requires
            old(self).ready(),
        ensures
            final(self).continues(old(self)),
            final(self)@ == unknown_method(old(self).analysis, old(self)@, call, callee),
    {
        proof {
            reveal(unknown_method);
        }
        let (value, name) = match &callee.kind {
            ExpressionKind::Member { value, member } => match member {
                Member::Named(name) => (value, name.span),
                _ => return,
            },
            _ => return,
        };
        let spelling = source_text(self.analysis, name);
        let method = match method_named(spelling.as_str()) {
            Some(method) => method,
            None => return,
        };
        let state = match self.analysis.expression_state(callee.span) {
            Some(state) => Some(state),
            None => self.analysis.expression_state(call),
        };
        if let Some(TypeState::Deferred(deferred)) = state {
            let subject = MutabilitySubject::Receiver { call, receiver: value.span };
            let root = self.place_root(value);
            self.ask(subject);
            self.postpone(
                DeferredMutability {
                    subject,
                    root,
                    access: BindingAccess::Mutate,
                    operation: MutabilityOperation::MutateReceiver(method),
                    deferred,
                },
            );
        }
    }

    fn judge_call(&mut self, target: CallTarget, call: Span, callee: &Expression, arguments: &Vec<Argument>)
        requires
            old(self).ready(),
        ensures
            final(self).continues(old(self)),
            final(self)@ == call_judged(old(self).analysis, old(self)@, target, call, callee, arguments@),
    {
        proof {
            reveal(call_judged);
        }
        match target {
            CallTarget::Builtin(method) => {
                if is_mutating_method(method) {
                    if let ExpressionKind::Member { value, .. } = &callee.kind {
                        self.authorize_place(
                            MutabilitySubject::Receiver { call, receiver: value.span },
                            value,
                            MutabilityOperation::MutateReceiver(method),
                        );
                    }
                }
            },
            CallTarget::Callable(CallableId::Function(function)) => {
                if function.0 < self.analysis.function_signatures.len() {
                    self.judge_arguments(call, function, arguments);
                }
            },
            CallTarget::Expression => self.defer_unknown_mutating_method(call, callee),
            _ => {},
        }
    }

    fn validate_call(&mut self, visits: &Vec<Visit<'a>>, resolution: CallResolution)
        requires
            old(self).ready(),
        ensures
            final(self).continues(old(self)),
            final(self)@ == call_rule(old(self).analysis, old(self)@, visits@, resolution),
    {
        proof {
            reveal(call_rule);
        }
        if let Some(e) = find_call(visits, resolution.node) {
            if let ExpressionKind::Call { callee, arguments } = &e.kind {
                self.judge_call(resolution.target, resolution.node, callee, arguments);
            }
        }
    }

    /// Looks at every change that the program makes.
    #[verifier::loop_isolation(false)]
    pub fn validate(&mut self)
        requires
            old(self).ready(),
            old(self)@ == (MutabilityState {
                diagnostics: old(self)@.diagnostics,
                rights: seq![],
                deferred: seq![],
                subjects: seq![],
            }),
        ensures
            final(self).continues(old(self)),
            final(self)@ == mutability_rule(old(self).analysis, old(self)@.diagnostics),
    {
        let analysis = self.analysis;
        let visits = visit_program(analysis.program);
        let ghost assigned = assignments_rule(analysis, self@, visits@, 0);
        let mut index: usize = 0;
        while index < visits.len()
            invariant
                index <= visits@.len(),
                self.continues(old(self)),
                assignments_rule(analysis, self@, visits@, index as int) == assigned,
            decreases visits@.len() - index,
        {
            if let Node::Statement(statement) = visits[index].node {
                if let StatementKind::Assignment { target, .. } = &statement.kind {
                    self.validate_assignment(target);
                }
            }
            index += 1;
        }
        let ghost whole = calls_rule(analysis, self@, visits@, 0);
        let mut index: usize = 0;
        while index < analysis.calls.len()
            invariant
                index <= analysis.calls@.len(),
                self.continues(old(self)),
                calls_rule(analysis, self@, visits@, index as int) == whole,
            decreases analysis.calls@.len() - index,
        {
            self.validate_call(&visits, analysis.calls[index]);
            index += 1;
        }
    }
}

fn operation_of(
    state: TypeState,
    steps: &Vec<AccessPathStep>,
    suffixes: usize,
) -> (result: Result<MutabilityOperation, Span>)
    ensures
        result == assignment_operation(state, steps@, suffixes as nat),
{
    proof {
        reveal(assignment_operation);
    }
    let deferred = match state {
        TypeState::Deferred(_) => true,
        _ => false,
    };
    if deferred && steps.len() != suffixes {
        Ok(MutabilityOperation::DeferredPath)
    } else if steps.len() == 0 {
        Ok(MutabilityOperation::Rebind)
    } else {
        match steps[steps.len() - 1] {
            AccessPathStep::StructMember { .. } => Ok(MutabilityOperation::ReplaceStructField),
            AccessPathStep::TupleMember { suffix, .. } => Err(suffix),
            AccessPathStep::ListIndex { .. } => Ok(MutabilityOperation::ReplaceListElement),
            AccessPathStep::MapIndex { .. } => Ok(MutabilityOperation::ReplaceMapElement),
        }
    }
}

fn copy_steps(steps: &Vec<AccessPathStep>) -> (result: Vec<AccessPathStep>)
    ensures
        result@ == steps@,
{
    let mut copy: Vec<AccessPathStep> = Vec::new();
    let mut index: usize = 0;
    while index < steps.len()
        invariant
            index <= steps@.len(),
            copy@ == steps@.subrange(0, index as int),
        decreases steps@.len() - index,
    {
        copy.push(steps[index]);
        proof {
            assert(steps@.subrange(0, index + 1) =~= steps@.subrange(0, index as int).push(steps@[index as int]));
        }
        index += 1;
    }
    assert(copy@ =~= steps@);
    copy
}

fn copy_types(types: &Vec<TypeId>) -> (result: Vec<TypeId>)
    ensures
        result@ == types@,
{
    let mut copy: Vec<TypeId> = Vec::new();
    let mut index: usize = 0;
    while index < types.len()
        invariant
            index <= types@.len(),
            copy@ == types@.subrange(0, index as int),
        decreases types@.len() - index,
    {
        copy.push(types[index]);
        proof {
            assert(types@.subrange(0, index + 1) =~= types@.subrange(0, index as int).push(types@[index as int]));
        }
        index += 1;
    }
    assert(copy@ =~= types@);
    copy
}

fn holds_type(types: &Vec<TypeId>, wanted: TypeId) -> (result: bool)
    ensures
        result == types@.contains(wanted),
{
    let mut index: usize = 0;
    while index < types.len()
        invariant
            index <= types@.len(),
            forall|i: int| 0 <= i < index ==> #[trigger] types@[i] != wanted,
        decreases types@.len() - index,
    {
        if types[index] == wanted {
            return true;
        }
        index += 1;
    }
    false
}

fn payload_states(alternatives: &Vec<UnionAlternative>) -> (result: Vec<TypeState>)
    ensures
        result@ == alternative_payloads(alternatives@),
{
    let mut states: Vec<TypeState> = Vec::new();
    let mut index: usize = 0;
    while index < alternatives.len()
        invariant
            index <= alternatives@.len(),
            states@.len() == index,
            forall|i: int| 0 <= i < index ==> #[trigger] states@[i] == alternative_payloads(alternatives@)[i],
        decreases alternatives@.len() - index,
    {
        states.push(TypeState::Resolved(alternative_payload(&alternatives[index])));
        index += 1;
    }
    assert(states@ =~= alternative_payloads(alternatives@));
    states
}

fn member_states(members: &Vec<TupleMember>) -> (result: Vec<TypeState>)
    ensures
        result@ == member_types(members@),
{
    let mut states: Vec<TypeState> = Vec::new();
    let mut index: usize = 0;
    while index < members.len()
        invariant
            index <= members@.len(),
            states@.len() == index,
            forall|i: int| 0 <= i < index ==> #[trigger] states@[i] == member_types(members@)[i],
        decreases members@.len() - index,
    {
        states.push(members[index].ty);
        index += 1;
    }
    assert(states@ =~= member_types(members@));
    states
}

fn root_use_span(e: &Expression) -> (result: Span)
    ensures
        result == root_span(e),
    decreases e,
{
    match &e.kind {
        ExpressionKind::Parenthesized(inner) => root_use_span(inner),
        ExpressionKind::Member { value, .. } => root_use_span(value),
        ExpressionKind::Index { value, .. } => root_use_span(value),
        ExpressionKind::Identifier(identifier) => identifier.span,
        _ => e.span,
    }
}

fn method_named(name: &str) -> (result: Option<BuiltinMethod>)
    ensures
        result == mutating_method(name@),
{
    if same_text(name, "append") {
        Some(BuiltinMethod::ListAppend)
    } else if same_text(name, "removeIndex") {
        Some(BuiltinMethod::ListRemoveIndex)
    } else if same_text(name, "removeKey") {
        Some(BuiltinMethod::MapRemoveKey)
    } else {
        None
    }
}

pub fn is_mutating_method(method: BuiltinMethod) -> (result: bool)
    ensures
        result == mutates(method),
{
    method == BuiltinMethod::ListAppend || method == BuiltinMethod::ListRemoveIndex || method
        == BuiltinMethod::MapRemoveKey
}

fn find_call<'a>(visits: &Vec<Visit<'a>>, span: Span) -> (result: Option<&'a Expression>)
    ensures
        result == call_at(visits@, span, 0),
{
    let mut index: usize = 0;
    while index < visits.len()
        invariant
            index <= visits@.len(),
            call_at(visits@, span, index as int) == call_at(visits@, span, 0),
        decreases visits@.len() - index,
    {
        if let Node::Expression(e) = visits[index].node {
            if e.span == span {
                if let ExpressionKind::Call { .. } = &e.kind {
                    return Some(e);
                }
            }
        }
        index += 1;
    }
    None
}

} // verus!
