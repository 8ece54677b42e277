//! What holds of every program whose facts may be handed on to lowering.

use crate::analysis::{facts_of, function_named, state_of};
use crate::semantic::MutabilitySubject;
use crate::semantic::entry::starts;
use crate::semantic::flow::FallthroughKind;
use crate::semantic::handoff::{
    Handoff, all_listed, assigns, controls, expression_of, flow_subject, loop_from, records_before,
    rights_before, statement_of, subjects_before,
};
use vstd::prelude::*;

verus! {

proof fn lemma_deferred_records(h: Handoff, from: int, index: int)
    requires
        0 <= from <= index < h.analysis.deferred@.len(),
        h.deferred_records(from) is Ok,
    ensures
        h.deferred_record(index) is Ok,
    decreases index - from,
{
    if from < index {
        lemma_deferred_records(h, from + 1, index);
    }
}

proof fn lemma_annotated_expressions(h: Handoff, from: int, index: int)
    requires
        0 <= from <= index < h.visits.len(),
        h.annotated_expressions(from) is Ok,
    ensures
        h.annotated_expression(index) is Ok,
    decreases index - from,
{
    if from < index {
        lemma_annotated_expressions(h, from + 1, index);
    }
}

proof fn lemma_switches(h: Handoff, from: int, index: int)
    requires
        0 <= from <= index < h.visits.len(),
        h.switches(from) is Ok,
    ensures
        h.switched(index) is Ok,
    decreases index - from,
{
    if from < index {
        lemma_switches(h, from + 1, index);
    }
}

pub(crate) proof fn lemma_switch_facts(h: Handoff, from: int, index: int)
    requires
        0 <= from <= index < h.semantic.switches@.len(),
        h.switch_facts(from) is Ok,
    ensures
        h.switch_fact(index) is Ok,
    decreases index - from,
{
    if from < index {
        lemma_switch_facts(h, from + 1, index);
    }
}

proof fn lemma_assignments_ask(h: Handoff, from: int, index: int)
    requires
        0 <= from <= index < h.visits.len(),
        h.assignments_ask(from) is Ok,
    ensures
        h.assignment_asks(index) is Ok,
    decreases index - from,
{
    if from < index {
        lemma_assignments_ask(h, from + 1, index);
    }
}

proof fn lemma_mutation_subjects(h: Handoff, from: int, index: int)
    requires
        0 <= from <= index < h.semantic.mutation_subjects@.len(),
        h.mutation_subjects(from) is Ok,
    ensures
        h.mutation_subject(index) is Ok,
    decreases index - from,
{
    if from < index {
        lemma_mutation_subjects(h, from + 1, index);
    }
}

proof fn lemma_flows_covered(h: Handoff, from: int, index: int)
    requires
        0 <= from <= index < h.visits.len(),
        h.flows_covered(from) is Ok,
    ensures
        h.flow_covered(index) is Ok,
    decreases index - from,
{
    if from < index {
        lemma_flows_covered(h, from + 1, index);
    }
}

pub(crate) proof fn lemma_flow_facts(h: Handoff, from: int, index: int)
    requires
        0 <= from <= index < h.semantic.flow.summaries@.len(),
        h.flow_facts(from) is Ok,
    ensures
        h.flow_fact(index) is Ok,
    decreases index - from,
{
    if from < index {
        lemma_flow_facts(h, from + 1, index);
    }
}

proof fn lemma_controls_covered(h: Handoff, from: int, index: int)
    requires
        0 <= from <= index < h.visits.len(),
        h.controls_covered(from) is Ok,
    ensures
        h.control_covered(index) is Ok,
    decreases index - from,
{
    if from < index {
        lemma_controls_covered(h, from + 1, index);
    }
}

pub(crate) proof fn lemma_control_facts(h: Handoff, from: int, index: int)
    requires
        0 <= from <= index < h.semantic.flow.loop_controls@.len(),
        h.control_facts(from) is Ok,
    ensures
        h.control_fact(index) is Ok,
    decreases index - from,
{
    if from < index {
        lemma_control_facts(h, from + 1, index);
    }
}

/// A program that may be handed on has no errors, and starts in a function `main` that can be started.
pub proof fn law_accepted_programs_start(h: Handoff)
    requires
        h.verdict() is Ok,
    ensures
        h.analysis.diagnostics@.len() == 0,
        h.semantic.diagnostics@.len() == 0,
        h.semantic.entry_point is Some,
        function_named(h.analysis.function_names@, "main"@, 0) == Some(h.semantic.entry_point->0.function),
        starts(
            h.analysis,
            h.analysis.function_signatures@[h.semantic.entry_point->0.function.0 as int],
        ),
{
}

/// In a program that may be handed on no decision is still open.
pub proof fn law_accepted_programs_leave_nothing_open(h: Handoff)
    requires
        h.verdict() is Ok,
    ensures
        h.semantic.deferred_mutability@.len() == 0,
        h.semantic.flow.deferred@.len() == 0,
        forall|i: int|
            0 <= i < h.analysis.deferred@.len() ==> (#[trigger] h.analysis.deferred@[i]).resolved,
{
    assert forall|i: int| 0 <= i < h.analysis.deferred@.len() implies (
    #[trigger] h.analysis.deferred@[i]).resolved by {
        lemma_deferred_records(h, 0, i);
    }
}

/// In a program that may be handed on every expression has a type that is settled, apart from the names of what
/// is called.
pub proof fn law_accepted_expressions_are_typed(h: Handoff, index: int)
    requires
        h.verdict() is Ok,
        0 <= index < h.visits.len(),
        expression_of(h.visits[index].node) is Some,
        !h.callee_syntax((expression_of(h.visits[index].node)->0).span),
    ensures
        state_of(h.analysis, (expression_of(h.visits[index].node)->0).span) matches Some(state)
            && h.final_state(state),
{
    lemma_annotated_expressions(h, 0, index);
}

/// In a program that may be handed on every `switch` is understood once, and without an `else` it covers every
/// alternative of its union.
pub proof fn law_accepted_switches_are_exhaustive(h: Handoff)
    requires
        h.verdict() is Ok,
    ensures
        forall|i: int|
            0 <= i < h.visits.len() && (statement_of((#[trigger] h.visits[i]).node) matches Some(statement)
                && statement.kind is Switch) ==> facts_of(
                h.semantic.switches@,
                (statement_of(h.visits[i].node)->0).span,
            ) == 1,
        forall|i: int|
            0 <= i < h.semantic.switches@.len() ==> (#[trigger] h.semantic.switches@[i]).exhaustive && (
            h.semantic.switches@[i].else_body is None ==> (h.union_alternatives(
                h.semantic.switches@[i].operand_union,
            ) matches Some(direct) && all_listed(direct, h.semantic.switches@[i].covered@))),
{
    assert forall|i: int|
        0 <= i < h.visits.len() && (statement_of((#[trigger] h.visits[i]).node) matches Some(statement)
            && statement.kind is Switch) implies facts_of(
        h.semantic.switches@,
        (statement_of(h.visits[i].node)->0).span,
    ) == 1 by {
        lemma_switches(h, 0, i);
    }
    assert forall|i: int| 0 <= i < h.semantic.switches@.len() implies (
    #[trigger] h.semantic.switches@[i]).exhaustive && (h.semantic.switches@[i].else_body is None ==> (
    h.union_alternatives(h.semantic.switches@[i].operand_union) matches Some(direct) && all_listed(
        direct,
        h.semantic.switches@[i].covered@,
    ))) by {
        lemma_switch_facts(h, 0, i);
        assert(h.coverage(h.semantic.switches@[i]) is Ok);
    }
}

/// In a program that may be handed on every assignment asks once for the right to change its target, and everything
/// that asks has just one right.
pub proof fn law_accepted_changes_are_authorized(h: Handoff, index: int)
    requires
        h.verdict() is Ok,
    ensures
        0 <= index < h.visits.len() ==> (assigns(h.visits[index].node) matches Some(target) ==> subjects_before(
            h.semantic.mutation_subjects@,
            MutabilitySubject::Assignment(target.span),
            h.semantic.mutation_subjects@.len() as int,
        ) == 1),
        0 <= index < h.semantic.mutation_subjects@.len() ==> rights_before(
            h.semantic.mutability@,
            h.semantic.mutation_subjects@[index],
            h.semantic.mutability@.len() as int,
        ) == 1,
{
    if 0 <= index < h.visits.len() {
        lemma_assignments_ask(h, 0, index);
    }
    if 0 <= index < h.semantic.mutation_subjects@.len() {
        lemma_mutation_subjects(h, 0, index);
    }
}

/// In a program that may be handed on the flow through every part is known once, and hangs on no `switch`.
pub proof fn law_accepted_flow_is_settled(h: Handoff, index: int)
    requires
        h.verdict() is Ok,
    ensures
        0 <= index < h.visits.len() ==> (flow_subject(h.visits[index].node) matches Some(subject) ==> records_before(
            h.semantic.flow.summaries@,
            subject,
            h.semantic.flow.summaries@.len() as int,
        ) == 1),
        0 <= index < h.semantic.flow.summaries@.len() ==> {
            let summary = h.semantic.flow.summaries@[index].summary;
            &&& summary.fallthrough != FallthroughKind::SwitchDependent
            &&& summary.switch_dependencies@.len() == 0
            &&& summary.flags.fallthrough == (summary.fallthrough != FallthroughKind::Never)
        },
{
    if 0 <= index < h.visits.len() {
        lemma_flows_covered(h, 0, index);
    }
    if 0 <= index < h.semantic.flow.summaries@.len() {
        lemma_flow_facts(h, 0, index);
    }
}

/// In a program that may be handed on every `break` and `continue` has one target, the loop that it stands in.
pub proof fn law_accepted_controls_target_their_loop(h: Handoff, index: int)
    requires
        h.verdict() is Ok,
    ensures
        0 <= index < h.visits.len() ==> (controls(h.visits[index].node) matches Some(control) ==> facts_of(
            h.semantic.flow.loop_controls@,
            control,
        ) == 1),
        0 <= index < h.semantic.flow.loop_controls@.len() ==> loop_from(
            h.visits,
            h.semantic.flow.loop_controls@[index].statement,
            0,
        ) == Some(h.semantic.flow.loop_controls@[index].target),
{
    if 0 <= index < h.visits.len() {
        lemma_controls_covered(h, 0, index);
    }
    if 0 <= index < h.semantic.flow.loop_controls@.len() {
        lemma_control_facts(h, 0, index);
    }
}

} // verus!
