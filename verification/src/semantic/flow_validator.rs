//! Finding how control flows through a program.

use crate::analysis::{
    AlternativeView, Analysis, BindingId, BindingNode, BindingType, CallTarget, CallableId,
    ExpressionAnnotation, Fact, FunctionId, IntrinsicId, ResolvedType, TypeDefinitionKind, TypeId, TypeState,
    UnionAlternative, latest_fact,
};
use crate::ast::PrimitiveType;
use crate::diagnostic::{Diagnostic, Diagnostics, Warnings};
use crate::semantic::{
    DeferredFlow, DeferredFlowKind, ExplicitReturn, FlowFacts, FlowRecord, FlowSubject, FunctionCompletion,
    LoopControl, SwitchResolution, TryAction, TryResolution,
};
use crate::semantic::flow::{FallthroughKind, FlowFlags, FlowSummary, FlowView, append_switches};
use crate::semantic::flow_rules::{
    CompletionView, DeferredView, FlowContext, FlowState, Progress, ReturnView, advanced, complained,
    control_flow, decided, diverged_flow, exhaustive, first_fact, flow_type, in_loop, introduced_from,
    local_typed, loop_flow, noted, out_of_loop, panics, put_off, return_noted, returned_flow, tried_flow,
    unit_alternative, warned,
};
use crate::semantic::handoff::units_before;
use crate::source::Span;
use vstd::prelude::*;

verus! {

pub open spec fn optional_alternative(alternative: Option<UnionAlternative>) -> Option<AlternativeView> {
    match alternative {
        Some(alternative) => Some(alternative@),
        None => None,
    }
}

impl ExplicitReturn {
    pub open spec fn view(&self) -> ReturnView {
        ReturnView {
            statement: self.statement,
            function: self.function,
            value: self.value,
            value_state: self.value_state,
            unit_injection: optional_alternative(self.unit_injection),
        }
    }
}

impl FunctionCompletion {
    pub open spec fn view(&self) -> CompletionView {
        CompletionView {
            function: self.function,
            body: self.body,
            unit_injection: optional_alternative(self.unit_injection),
        }
    }
}

impl DeferredFlow {
    pub open spec fn view(&self) -> DeferredView {
        DeferredView { kind: self.kind, switches: self.switches@ }
    }
}

pub open spec fn summary_views(records: Seq<FlowRecord>) -> Seq<(FlowSubject, FlowView)> {
    Seq::new(records.len(), |i: int| (records[i].subject, records[i].summary@))
}

pub open spec fn return_views(records: Seq<ExplicitReturn>) -> Seq<ReturnView> {
    Seq::new(records.len(), |i: int| records[i]@)
}

pub open spec fn completion_views(records: Seq<FunctionCompletion>) -> Seq<CompletionView> {
    Seq::new(records.len(), |i: int| records[i]@)
}

pub open spec fn deferred_views(records: Seq<DeferredFlow>) -> Seq<DeferredView> {
    Seq::new(records.len(), |i: int| records[i]@)
}

/// The flow through a program as far as it has been found.
#[derive(Debug)]
pub struct FlowValidator<'a> {
    pub analysis: Analysis<'a>,
    pub diagnostics: Diagnostics,
    pub warnings: Warnings,
    pub facts: FlowFacts,
    pub loops: Vec<Span>,
    pub switches: Vec<SwitchResolution>,
    pub tries: Vec<TryResolution>,
}

/// What the flow of a program depends on.
pub open spec fn flow_context<'a>(
    analysis: &Analysis<'a>,
    switches: Seq<SwitchResolution>,
    tries: Seq<TryResolution>,
) -> FlowContext<'a> {
    FlowContext {
        source: analysis.source,
        types: analysis.types.entries@,
        definitions: analysis.type_definitions@,
        bindings: analysis.bindings@,
        calls: analysis.calls@,
        switches,
        tries,
    }
}

impl<'a> FlowValidator<'a> {
    pub open spec fn view(&self) -> FlowState {
        FlowState {
            annotations: self.analysis.expression_annotations@,
            binding_types: self.analysis.binding_types@,
            diagnostics: self.diagnostics@,
            warnings: self.warnings@,
            summaries: summary_views(self.facts.summaries@),
            returns: return_views(self.facts.returns@),
            completions: completion_views(self.facts.completions@),
            controls: self.facts.loop_controls@,
            deferred: deferred_views(self.facts.deferred@),
            loops: self.loops@,
        }
    }

    pub open spec fn context(&self) -> FlowContext<'a> {
        flow_context(&self.analysis, self.switches@, self.tries@)
    }

    pub open spec fn ready(&self) -> bool {
        self.analysis.source.wf() && self.diagnostics.wf() && self.warnings.wf()
    }

    /// Only what grows has changed.
    pub open spec fn continues(&self, before: &Self) -> bool {
        &&& self.ready()
        &&& self.diagnostics@.len() >= before.diagnostics@.len()
        &&& self.switches == before.switches
        &&& self.tries == before.tries
        &&& self.analysis == Analysis {
            expression_annotations: self.analysis.expression_annotations,
            binding_types: self.analysis.binding_types,
            ..before.analysis
        }
    }

    pub fn note(&mut self, subject: FlowSubject, flow: &FlowSummary)
        requires
            old(self).ready(),
        ensures
            final(self).continues(old(self)),
            final(self)@ == noted(old(self)@, subject, flow@),
    {
        self.facts.summaries.push(FlowRecord { subject, summary: flow.duplicate() });
        proof {
            reveal(noted);
            assert(self@ =~= noted(old(self)@, subject, flow@));
        }
    }

    pub fn complain(&mut self, span: Span, message: &str)
        requires
            old(self).ready(),
        ensures
            final(self).continues(old(self)),
            final(self)@ == complained(old(self).context(), old(self)@, span, message@),
    {
        self.diagnostics.push(Diagnostic::source(self.analysis.source, span, message));
        proof {
            reveal(complained);
            assert(self@ =~= complained(old(self).context(), old(self)@, span, message@));
        }
    }

    pub fn warn(&mut self, span: Span)
        requires
            old(self).ready(),
        ensures
            final(self).continues(old(self)),
            final(self)@ == warned(old(self).context(), old(self)@, span),
    {
        self.warnings.push(Diagnostic::source_warning(self.analysis.source, span, "unreachable source"));
        proof {
            reveal(warned);
            assert(self@ =~= warned(old(self).context(), old(self)@, span));
        }
    }

    pub fn defer(&mut self, kind: DeferredFlowKind, switches: &Vec<Span>)
        requires
            old(self).ready(),
        ensures
            final(self).continues(old(self)),
            final(self)@ == put_off(old(self)@, kind, switches@),
    {
        let mut copy: Vec<Span> = Vec::new();
        append_switches(&mut copy, switches);
        assert(copy@ =~= switches@);
        self.facts.deferred.push(DeferredFlow { kind, switches: copy });
        proof {
            reveal(put_off);
            assert(self@ =~= put_off(old(self)@, kind, switches@));
        }
    }

    pub fn enter_loop(&mut self, span: Span)
        requires
            old(self).ready(),
        ensures
            final(self).continues(old(self)),
            final(self)@ == in_loop(old(self)@, span),
    {
        self.loops.push(span);
        proof {
            reveal(in_loop);
            assert(self@ =~= in_loop(old(self)@, span));
        }
    }

    pub fn leave_loop(&mut self)
        requires
            old(self).ready(),
        ensures
            final(self).continues(old(self)),
            final(self)@ == out_of_loop(old(self)@),
    {
        let _ = self.loops.pop();
        proof {
            reveal(out_of_loop);
            assert(self@ =~= out_of_loop(old(self)@));
        }
    }

    pub fn state(&self, expression: Span) -> (result: TypeState)
        ensures
            result == flow_type(self@, expression),
    {
        match latest_fact(&self.analysis.expression_annotations, expression) {
            Some(index) => self.analysis.expression_annotations[index].state,
            None => TypeState::Error,
        }
    }

    /// One more part of a block.
    pub fn advance(
        &mut self,
        flow: FlowSummary,
        unreachable: bool,
        pending: Vec<Span>,
        subject: FlowSubject,
        span: Span,
        next: FlowSummary,
    ) -> (result: (FlowSummary, bool, Vec<Span>))
        requires
            old(self).ready(),
        ensures
            final(self).continues(old(self)),
            (final(self)@, (Progress { flow: result.0@, unreachable: result.1, pending: result.2@ })) == advanced(
                old(self).context(),
                old(self)@,
                (Progress { flow: flow@, unreachable, pending: pending@ }),
                subject,
                span,
                next@,
            ),
    {
        proof {
            reveal(advanced);
        }
        match flow.fallthrough {
            FallthroughKind::Never => {
                if !unreachable {
                    self.warn(span);
                }
                (flow, true, pending)
            },
            FallthroughKind::SwitchDependent => {
                if !same_switches(&pending, &flow.switch_dependencies) {
                    self.defer(DeferredFlowKind::Reachability { construct: subject }, &flow.switch_dependencies);
                }
                let mut copy: Vec<Span> = Vec::new();
                append_switches(&mut copy, &flow.switch_dependencies);
                assert(copy@ =~= flow.switch_dependencies@);
                (flow.followed_by(next), unreachable, copy)
            },
            FallthroughKind::Definite => { (flow.followed_by(next), unreachable, Vec::new()) },
        }
    }

    /// A local that was thought to hold no value gets the type of its initializer.
    pub fn type_local(&mut self, statement: Span, initializer: Span)
        requires
            old(self).ready(),
        ensures
            final(self).continues(old(self)),
            final(self)@ == local_typed(old(self).context(), old(self)@, statement, initializer),
    {
        proof {
            reveal(local_typed);
        }
        let state = self.state(initializer);
        if let Some(binding) = introduced(&self.analysis, BindingNode::Local(statement)) {
            let resolved = match state {
                TypeState::Resolved(_) => true,
                _ => false,
            };
            if binding.0 < self.analysis.binding_types.len() && resolved
                && self.analysis.binding_types[binding.0].state == TypeState::Never {
                let kept = self.analysis.binding_types[binding.0].binding;
                self.analysis.binding_types.set(binding.0, BindingType { binding: kept, state });
            }
        }
        assert(self@ =~= local_typed(old(self).context(), old(self)@, statement, initializer));
    }

    /// The alternative of a union that carries just the unit type, if there is one such.
    pub fn unit_alternative(&self, ty: TypeId) -> (result: Option<UnionAlternative>)
        ensures
            optional_alternative(result) == unit_alternative(self.context(), ty),
    {
        proof {
            reveal(unit_alternative);
        }
        if ty.0 >= self.analysis.types.entries.len() {
            return None;
        }
        let alternatives = match &self.analysis.types.entries[ty.0] {
            ResolvedType::Union(alternatives) => alternatives,
            ResolvedType::Nominal(declaration) => {
                if declaration.0 >= self.analysis.type_definitions.len() {
                    return None;
                }
                match &self.analysis.type_definitions[declaration.0].kind {
                    TypeDefinitionKind::Union { alternatives, .. } => alternatives,
                    _ => return None,
                }
            },
            _ => return None,
        };
        if count_units(alternatives) == 1 {
            Some(UnionAlternative::Untagged(self.analysis.types.unit()))
        } else {
            None
        }
    }

    /// Notes a `return`, or refuses it where it lacks a value.
    pub fn note_return(&mut self, function: (FunctionId, TypeState), statement: Span, value: Option<Span>)
        requires
            old(self).ready(),
        ensures
            final(self).continues(old(self)),
            final(self)@ == return_noted(old(self).context(), old(self)@, function, statement, value),
    {
        proof {
            reveal(return_noted);
        }
        let unit = self.analysis.types.unit();
        let value_state = match value {
            Some(value) => self.state(value),
            None => TypeState::Resolved(unit),
        };
        let unit_injection = match function.1 {
            TypeState::Resolved(ty) => if value.is_none() && ty != unit {
                self.unit_alternative(ty)
            } else {
                None
            },
            _ => None,
        };
        if value.is_some() || function.1 == TypeState::Resolved(unit) || unit_injection.is_some() {
            self.facts.returns.push(
                ExplicitReturn { statement, function: function.0, value, value_state, unit_injection },
            );
            assert(self@ =~= return_noted(old(self).context(), old(self)@, function, statement, value));
        } else {
            self.complain(statement, "value-returning function requires a return value");
        }
    }

    /// A `break` or `continue`.
    pub fn control(&mut self, breaks: bool, statement: Span) -> (result: FlowSummary)
        requires
            old(self).ready(),
        ensures
            final(self).continues(old(self)),
            (final(self)@, result@) == control_flow(old(self).context(), old(self)@, breaks, statement),
    {
        proof {
            reveal(control_flow);
        }
        let depth = self.loops.len();
        if depth > 0 {
            let target = self.loops[depth - 1];
            self.facts.loop_controls.push(LoopControl { statement, target });
            let flow = FlowSummary::terminal(
                if breaks {
                    FlowFlags::breaking()
                } else {
                    FlowFlags::continuing()
                },
            );
            assert(self@ =~= control_flow(old(self).context(), old(self)@, breaks, statement).0);
            flow
        } else {
            self.complain(
                statement,
                if breaks {
                    "'break' is only valid inside a loop"
                } else {
                    "'continue' is only valid inside a loop"
                },
            );
            FlowSummary::falling_through()
        }
    }

    pub fn switch_is_exhaustive(&self, statement: Span) -> (result: bool)
        ensures
            result == exhaustive(self.context(), statement),
    {
        proof {
            reveal(exhaustive);
        }
        match find_fact(&self.switches, statement) {
            Some(index) => self.switches[index].exhaustive,
            None => false,
        }
    }

    /// The error path of a postfix `?`.
    pub fn tried(&self, expression: Span, flow: FlowSummary) -> (result: FlowSummary)
        ensures
            result@ == tried_flow(self.context(), expression, flow@),
    {
        proof {
            reveal(tried_flow);
        }
        let mut flow = flow;
        if flow.can_fallthrough() {
            if let Some(index) = find_fact(&self.tries, expression) {
                match &self.tries[index].action {
                    TryAction::Propagate { .. } => {
                        flow.flags.returns = true;
                    },
                    TryAction::Panic { .. } => {
                        flow.flags.diverges = true;
                    },
                }
            }
        }
        flow
    }

    pub fn call_panics(&self, call: Span) -> (result: bool)
        ensures
            result == panics(self.context(), call),
    {
        proof {
            reveal(panics);
        }
        match latest_fact(&self.analysis.calls, call) {
            Some(index) => match self.analysis.calls[index].target {
                CallTarget::Callable(CallableId::Intrinsic(IntrinsicId::Panic)) => true,
                _ => false,
            },
            None => false,
        }
    }

    /// `and` and `or`: a right side that never ends leaves the value of the left one.
    pub fn decide(&mut self, left: Span, expression: Span, first: &FlowSummary, flow: &FlowSummary)
        requires
            old(self).ready(),
        ensures
            final(self).continues(old(self)),
            final(self)@ == decided(old(self)@, left, expression, first@, flow@),
    {
        proof {
            reveal(decided);
        }
        let bool_type = TypeState::Resolved(self.analysis.types.primitive(PrimitiveType::Bool));
        if first.can_fallthrough() && flow.can_fallthrough() && self.state(left) == bool_type && self.state(expression)
            == TypeState::Never {
            self.analysis.expression_annotations.push(ExpressionAnnotation { node: expression, state: bool_type });
        }
        assert(self@ =~= decided(old(self)@, left, expression, first@, flow@));
    }
}

pub fn same_switches(left: &Vec<Span>, right: &Vec<Span>) -> (result: bool)
    ensures
        result == (left@ == right@),
{
    if left.len() != right.len() {
        return false;
    }
    let mut index: usize = 0;
    while index < left.len()
        invariant
            index <= left@.len(),
            left@.len() == right@.len(),
            forall|i: int| 0 <= i < index ==> left@[i] == right@[i],
        decreases left@.len() - index,
    {
        if left[index] != right[index] {
            return false;
        }
        index += 1;
    }
    assert(left@ =~= right@);
    true
}

/// The binding that a node introduces.
pub fn introduced(analysis: &Analysis, node: BindingNode) -> (result: Option<BindingId>)
    ensures
        result == introduced_from(analysis.bindings@, node, 0),
{
    let mut index: usize = 0;
    while index < analysis.bindings.len()
        invariant
            index <= analysis.bindings@.len(),
            introduced_from(analysis.bindings@, node, index as int) == introduced_from(analysis.bindings@, node, 0),
        decreases analysis.bindings@.len() - index,
    {
        if analysis.bindings[index].node == node {
            return Some(analysis.bindings[index].id);
        }
        index += 1;
    }
    None
}

pub fn count_units(alternatives: &Vec<UnionAlternative>) -> (result: usize)
    ensures
        result == units_before(alternatives@, alternatives@.len() as int),
{
    let mut count: usize = 0;
    let mut index: usize = 0;
    while index < alternatives.len()
        invariant
            index <= alternatives@.len(),
            count <= index,
            count == units_before(alternatives@, index as int),
        decreases alternatives@.len() - index,
    {
        if let UnionAlternative::Untagged(payload) = &alternatives[index] {
            if payload.0 == 0 {
                count += 1;
            }
        }
        index += 1;
    }
    count
}

/// The first fact about a node.
pub fn find_fact<T: Fact>(facts: &Vec<T>, node: Span) -> (result: Option<usize>)
    ensures
        match result {
            Some(index) => index < facts@.len() && first_fact(facts@, node, 0) == Some(index as int),
            None => first_fact(facts@, node, 0) is None,
        },
{
    let mut index: usize = 0;
    while index < facts.len()
        invariant
            index <= facts@.len(),
            first_fact(facts@, node, index as int) == first_fact(facts@, node, 0),
        decreases facts@.len() - index,
    {
        if facts[index].subject() == node {
            return Some(index);
        }
        index += 1;
    }
    None
}

/// A part that is left by a `return` where control gets to its end.
pub fn returned(evaluated: FlowSummary) -> (result: FlowSummary)
    ensures
        result@ == returned_flow(evaluated@),
{
    if evaluated.can_fallthrough() {
        let mut flags = evaluated.flags;
        flags.fallthrough = false;
        flags.returns = true;
        FlowSummary::terminal(flags)
    } else {
        evaluated
    }
}

/// A part that ends the program where control gets to its end.
pub fn diverged(evaluated: FlowSummary) -> (result: FlowSummary)
    ensures
        result@ == diverged_flow(evaluated@),
{
    if evaluated.can_fallthrough() {
        let mut flags = evaluated.flags;
        flags.fallthrough = false;
        flags.diverges = true;
        FlowSummary::terminal(flags)
    } else {
        evaluated
    }
}

pub fn looped(head: FlowSummary, body: &FlowSummary) -> (result: FlowSummary)
    ensures
        result@ == loop_flow(head@, body@),
{
    if !head.can_fallthrough() {
        return head;
    }
    let mut flags = head.flags;
    flags.fallthrough = true;
    flags.returns = flags.returns || body.flags.returns;
    flags.diverges = flags.diverges || body.flags.diverges;
    FlowSummary { flags, fallthrough: head.fallthrough, switch_dependencies: head.switch_dependencies }
}

} // verus!
