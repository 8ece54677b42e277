//! Flow-sensitive validation over completed name and type analysis.
//!
//! `handoff` is the mandatory checked boundary for whatever consumes the facts of the front end.

pub mod coverage;
pub mod entry;
pub mod execution;
pub mod flow;
pub mod flow_rules;
pub mod flow_validator;
pub mod flow_walk;
pub mod handoff;
pub mod laws;
pub mod mutability;
pub mod ownership;
pub mod subjects;
pub mod union_labels;
pub mod union_rules;
pub mod union_syntax;
pub mod union_validator;
pub mod union_walk;
pub mod union_walk_rules;

use crate::analysis::{
    AccessPathStep, Analysis, AstNode, BindingAccess, BindingId, BuiltinMethod, DeferredId, DeferredRecord,
    Fact, FunctionId, MemberStorage, TypeDeclarationId, TypeId, TypeState, UnionAlternative, function_named,
};
use crate::diagnostic::{DiagnosticView, Diagnostics, MAX_SOURCE_ERRORS, Warnings, reported};
use crate::semantic::entry::{entry_fault, entry_point, signature_resolved};
use crate::semantic::flow::{FlowSummary, append_switches, holds_span};
use crate::semantic::flow_rules::{DeferredView, FlowState, functions_flow};
use crate::semantic::flow_validator::{
    FlowValidator, completion_views, deferred_views, flow_context, return_views, summary_views,
};
use crate::semantic::mutability::{MutabilityState, MutabilityValidator, mutability_rule, right_views};
use crate::semantic::union_rules::UnionState;
use crate::semantic::union_validator::{
    UnionValidator, injection_views, shapes, switch_facts, target_views, test_facts, try_facts, union_context,
};
use crate::semantic::union_walk_rules::functions_rule;
use crate::source::Span;
use vstd::prelude::*;

verus! {

#[derive(Clone, Copy, Debug, Eq, PartialEq, Structural)]
pub struct EntryPoint {
    pub function: FunctionId,
}

impl EntryPoint {
    pub fn function_id(self) -> (result: FunctionId)
        ensures
            result == self.function,
    {
        self.function
    }
}

#[derive(Clone, Copy, Debug, Eq, PartialEq, Structural)]
pub enum MutabilityOperation {
    DeferredPath,
    Rebind,
    ReplaceStructField,
    ReplaceListElement,
    ReplaceMapElement,
    MutateReceiver(BuiltinMethod),
    MutableArgument { function: FunctionId, parameter: BindingId },
}

/// What asks for the right to change something.
#[derive(Clone, Copy, Debug, Eq, PartialEq, Structural)]
pub enum MutabilitySubject {
    Assignment(Span),
    Receiver { call: Span, receiver: Span },
    Argument { call: Span, argument: Span },
}

/// One step from a binding to the place that an expression denotes.
#[derive(Clone, Copy, Debug, Eq, PartialEq, Structural)]
pub enum PlaceStep {
    StructMember {
        node: Span,
        declaration: TypeDeclarationId,
        member: Span,
        storage: MemberStorage,
        state: TypeState,
    },
    TupleMember { node: Span, declaration: TypeDeclarationId, member: Span, position: usize, state: TypeState },
    ListIndex { node: Span, element: TypeId, state: TypeState },
    MapIndex { node: Span, key: TypeId, value: TypeId, state: TypeState },
}

#[derive(Debug, Eq, PartialEq)]
pub enum MutabilityPath {
    Assignment(Vec<AccessPathStep>),
    Expression(Vec<PlaceStep>),
}

/// The right to change something.
#[derive(Debug, Eq, PartialEq)]
pub struct MutabilityResolution {
    pub subject: MutabilitySubject,
    pub root: BindingId,
    pub access: BindingAccess,
    pub operation: MutabilityOperation,
    pub path: MutabilityPath,
}

#[derive(Clone, Copy, Debug, Eq, PartialEq, Structural)]
pub struct DeferredMutability {
    pub subject: MutabilitySubject,
    pub root: Option<BindingId>,
    pub access: BindingAccess,
    pub operation: MutabilityOperation,
    pub deferred: DeferredId,
}

#[derive(Debug, Eq, PartialEq)]
pub struct UnionTestResolution {
    pub expression: Span,
    pub operand_union: TypeId,
    pub alternative: UnionAlternative,
    pub payload: TypeId,
    pub binding: Option<BindingId>,
}

#[derive(Debug, Eq, PartialEq)]
pub struct SwitchArmResolution {
    pub arm: Span,
    pub alternative: UnionAlternative,
    pub payload: TypeId,
}

#[derive(Debug, Eq, PartialEq)]
pub struct SwitchResolution {
    pub statement: Span,
    pub operand_union: TypeId,
    pub binding: Option<BindingId>,
    pub arms: Vec<SwitchArmResolution>,
    pub covered: Vec<UnionAlternative>,
    pub else_body: Option<Span>,
    pub exhaustive: bool,
}

#[derive(Debug, Eq, PartialEq)]
pub enum TryAction {
    Propagate { function: FunctionId, destination_union: TypeId, destination_error: UnionAlternative },
    Panic { function: FunctionId },
}

#[derive(Debug, Eq, PartialEq)]
pub struct TryResolution {
    pub expression: Span,
    pub operator_span: Span,
    pub operand_union: TypeId,
    pub source_error: UnionAlternative,
    pub success: TypeId,
    /// The union that the success is put into, where it is not what the operand leaves.
    pub widening: Option<TypeId>,
    pub action: TryAction,
}

#[derive(Debug, Eq, PartialEq)]
pub struct ExplicitReturn {
    pub statement: Span,
    pub function: FunctionId,
    pub value: Option<Span>,
    pub value_state: TypeState,
    pub unit_injection: Option<UnionAlternative>,
}

#[derive(Debug, Eq, PartialEq)]
pub struct FunctionCompletion {
    pub function: FunctionId,
    pub body: Span,
    pub unit_injection: Option<UnionAlternative>,
}

#[derive(Clone, Copy, Debug, Eq, PartialEq, Structural)]
pub struct LoopControl {
    pub statement: Span,
    pub target: Span,
}

/// A part of a program that control flows through.
#[derive(Clone, Copy, Debug, Eq, PartialEq, Structural)]
pub enum FlowSubject {
    Block(Span),
    Statement(Span),
    StatementBody(Span),
    Expression(Span),
    ExpressionBody(Span),
    SwitchArm(Span),
}

#[derive(Clone, Copy, Debug, Eq, PartialEq, Structural)]
pub enum DeferredFlowKind {
    FunctionReturn { function: FunctionId, body: Span },
    FunctionFinalValue { function: FunctionId, body: Span, value: Span, declared_result: TypeState },
    Reachability { construct: FlowSubject },
}

#[derive(Debug, Eq, PartialEq)]
pub struct DeferredFlow {
    pub kind: DeferredFlowKind,
    pub switches: Vec<Span>,
}

#[derive(Debug, Eq, PartialEq)]
pub struct FlowRecord {
    pub subject: FlowSubject,
    pub summary: FlowSummary,
}

#[derive(Debug, Eq, PartialEq)]
pub struct FlowFacts {
    pub summaries: Vec<FlowRecord>,
    pub returns: Vec<ExplicitReturn>,
    pub completions: Vec<FunctionCompletion>,
    pub loop_controls: Vec<LoopControl>,
    pub deferred: Vec<DeferredFlow>,
}

/// Everything that semantic validation states of one program.
#[derive(Debug)]
pub struct SemanticResult {
    pub diagnostics: Diagnostics,
    pub warnings: Warnings,
    pub entry_point: Option<EntryPoint>,
    pub mutability: Vec<MutabilityResolution>,
    /// What was classified as asking for the right to change something.
    pub mutation_subjects: Vec<MutabilitySubject>,
    pub deferred_mutability: Vec<DeferredMutability>,
    pub union_tests: Vec<UnionTestResolution>,
    pub switches: Vec<SwitchResolution>,
    pub tries: Vec<TryResolution>,
    pub flow: FlowFacts,
}

impl Fact for UnionTestResolution {
    open spec fn about(&self) -> Span {
        self.expression
    }

    fn subject(&self) -> Span {
        self.expression
    }
}

impl Fact for SwitchResolution {
    open spec fn about(&self) -> Span {
        self.statement
    }

    fn subject(&self) -> Span {
        self.statement
    }
}

impl Fact for TryResolution {
    open spec fn about(&self) -> Span {
        self.expression
    }

    fn subject(&self) -> Span {
        self.expression
    }
}

impl Fact for ExplicitReturn {
    open spec fn about(&self) -> Span {
        self.statement
    }

    fn subject(&self) -> Span {
        self.statement
    }
}

impl Fact for LoopControl {
    open spec fn about(&self) -> Span {
        self.statement
    }

    fn subject(&self) -> Span {
        self.statement
    }
}

impl Fact for FunctionCompletion {
    open spec fn about(&self) -> Span {
        self.body
    }

    fn subject(&self) -> Span {
        self.body
    }
}

/// What was reported of the function that a program starts in.
pub open spec fn entry_diagnostics(analysis: &Analysis) -> Seq<DiagnosticView> {
    match entry_fault(analysis) {
        Some(fault) => reported(seq![], fault, MAX_SOURCE_ERRORS as nat),
        None => seq![],
    }
}

/// What is known before union syntax is resolved.
pub open spec fn before_unions(analysis: &Analysis) -> UnionState {
    UnionState {
        types: shapes(analysis.types.entries@),
        annotations: analysis.expression_annotations@,
        type_annotations: analysis.type_annotations@,
        binding_types: analysis.binding_types@,
        deferred: analysis.deferred@,
        targets: target_views(analysis.assignment_targets@),
        projections: analysis.projections@,
        calls: analysis.calls@,
        injection_subjects: injection_views(analysis.union_injection_subjects@),
        injections: injection_views(analysis.union_injections@),
        diagnostics: entry_diagnostics(analysis),
        warnings: seq![],
        tests: seq![],
        switches: seq![],
        tries: seq![],
        narrowed: seq![],
    }
}

/// What is known once union syntax is resolved.
pub open spec fn after_unions(analysis: &Analysis) -> UnionState {
    functions_rule(union_context(analysis), before_unions(analysis), 0)
}

/// Facts about a program that only the resolution of union syntax has changed.
pub open spec fn unions_resolved(before: &Analysis, middle: &Analysis, u: UnionState) -> bool {
    &&& *middle == Analysis {
        types: middle.types,
        expression_annotations: middle.expression_annotations,
        type_annotations: middle.type_annotations,
        binding_types: middle.binding_types,
        deferred: middle.deferred,
        assignment_targets: middle.assignment_targets,
        projections: middle.projections,
        calls: middle.calls,
        union_injection_subjects: middle.union_injection_subjects,
        union_injections: middle.union_injections,
        ..*before
    }
    &&& shapes(middle.types.entries@) == u.types
    &&& middle.expression_annotations@ == u.annotations
    &&& middle.type_annotations@ == u.type_annotations
    &&& middle.binding_types@ == u.binding_types
    &&& middle.deferred@ == u.deferred
    &&& target_views(middle.assignment_targets@) == u.targets
    &&& middle.projections@ == u.projections
    &&& middle.calls@ == u.calls
    &&& injection_views(middle.union_injection_subjects@) == u.injection_subjects
    &&& injection_views(middle.union_injections@) == u.injections
}

/// What is known before the flow of a program is found.
pub open spec fn before_flow(
    middle: &Analysis,
    diagnostics: Seq<DiagnosticView>,
    warnings: Seq<DiagnosticView>,
) -> FlowState {
    FlowState {
        annotations: middle.expression_annotations@,
        binding_types: middle.binding_types@,
        diagnostics,
        warnings,
        summaries: seq![],
        returns: seq![],
        completions: seq![],
        controls: seq![],
        deferred: seq![],
        loops: seq![],
    }
}

/// Whether a decision about the flow still hangs on a `switch` that is not understood.
pub open spec fn still_open(records: Seq<DeferredRecord>, switches: Seq<Span>) -> bool {
    ||| switches.len() == 0
    ||| exists|i: int, j: int|
        0 <= i < switches.len() && 0 <= j < records.len() && !(#[trigger] records[j]).resolved && records[j].node
            == AstNode::Statement(#[trigger] switches[i])
}

/// The decisions among the first `count` that are still open.
pub open spec fn open_decisions(
    records: Seq<DeferredRecord>,
    decisions: Seq<DeferredView>,
    count: int,
) -> Seq<DeferredView>
    decreases count,
{
    if count <= 0 {
        seq![]
    } else if still_open(records, decisions[count - 1].switches) {
        open_decisions(records, decisions, count - 1).push(decisions[count - 1])
    } else {
        open_decisions(records, decisions, count - 1)
    }
}

/// What semantic analysis states of a program: the function that it starts in, its union syntax, the changes that
/// it makes and its flow, each found with what was found before it. `middle` is what is known of the program
/// once its union syntax is resolved.
pub open spec fn analyzed<'a>(
    before: &Analysis<'a>,
    middle: &Analysis<'a>,
    after: &Analysis<'a>,
    result: &SemanticResult,
) -> bool {
    let u = after_unions(before);
    let m = mutability_rule(middle, u.diagnostics);
    let f = functions_flow(
        flow_context(middle, result.switches@, result.tries@),
        before_flow(middle, m.diagnostics, u.warnings),
        middle.function_signatures@,
        0,
    );
    &&& unions_resolved(before, middle, u)
    &&& test_facts(result.union_tests@) == u.tests
    &&& switch_facts(result.switches@) == u.switches
    &&& try_facts(result.tries@) == u.tries
    &&& right_views(result.mutability@) == m.rights
    &&& result.deferred_mutability@ == m.deferred
    &&& result.mutation_subjects@ == m.subjects
    &&& *after == Analysis {
        expression_annotations: after.expression_annotations,
        binding_types: after.binding_types,
        ..*middle
    }
    &&& after.expression_annotations@ == f.annotations
    &&& after.binding_types@ == f.binding_types
    &&& result.diagnostics@ == f.diagnostics
    &&& result.warnings@ == f.warnings
    &&& summary_views(result.flow.summaries@) == f.summaries
    &&& return_views(result.flow.returns@) == f.returns
    &&& completion_views(result.flow.completions@) == f.completions
    &&& result.flow.loop_controls@ == f.controls
    &&& deferred_views(result.flow.deferred@) == open_decisions(
        after.deferred@,
        f.deferred,
        f.deferred.len() as int,
    )
}

fn is_still_open(records: &Vec<DeferredRecord>, switches: &Vec<Span>) -> (result: bool)
    ensures
        result == still_open(records@, switches@),
{
    if switches.len() == 0 {
        return true;
    }
    let mut index: usize = 0;
    while index < records.len()
        invariant
            index <= records@.len(),
            switches@.len() > 0,
            forall|i: int, j: int|
                0 <= i < switches@.len() && 0 <= j < index && !(#[trigger] records@[j]).resolved
                    ==> records@[j].node != AstNode::Statement(#[trigger] switches@[i]),
        decreases records@.len() - index,
    {
        if !records[index].resolved {
            if let AstNode::Statement(statement) = records[index].node {
                if holds_span(switches, statement) {
                    proof {
                        let i = choose|i: int| 0 <= i < switches@.len() && switches@[i] == statement;
                        assert(records@[index as int].node == AstNode::Statement(switches@[i]));
                    }
                    return true;
                }
                assert forall|i: int| 0 <= i < switches@.len() implies #[trigger] switches@[i] != statement by {
                    assert(!switches@.contains(statement));
                }
            }
        }
        index += 1;
    }
    false
}

/// The decisions that are still open.
fn keep_open(records: &Vec<DeferredRecord>, decisions: &Vec<DeferredFlow>) -> (result: Vec<DeferredFlow>)
    ensures
        deferred_views(result@) == open_decisions(
            records@,
            deferred_views(decisions@),
            decisions@.len() as int,
        ),
{
    let mut kept: Vec<DeferredFlow> = Vec::new();
    assert(deferred_views(kept@) =~= seq![]);
    let mut index: usize = 0;
    while index < decisions.len()
        invariant
            index <= decisions@.len(),
            deferred_views(kept@) == open_decisions(records@, deferred_views(decisions@), index as int),
        decreases decisions@.len() - index,
    {
        let ghost before = deferred_views(kept@);
        assert(deferred_views(decisions@)[index as int] == decisions@[index as int]@);
        if is_still_open(records, &decisions[index].switches) {
            let mut switches: Vec<Span> = Vec::new();
            append_switches(&mut switches, &decisions[index].switches);
            assert(switches@ =~= decisions@[index as int].switches@);
            kept.push(DeferredFlow { kind: decisions[index].kind, switches });
            assert(deferred_views(kept@) =~= before.push(decisions@[index as int]@));
        }
        index += 1;
    }
    kept
}

/// Checks what name and type analysis leaves open: the function that a program starts in, its union syntax,
/// the changes that it makes and its flow.
#[verifier::spinoff_prover]
pub fn analyze<'a>(analysis: Analysis<'a>) -> (result: (Analysis<'a>, SemanticResult))
    requires
        analysis.source.wf(),
        analysis.diagnostics@.len() == 0,
        function_named(analysis.function_names@, "main"@, 0) matches Some(function) ==> function.0
            < analysis.function_signatures@.len() && signature_resolved(
            analysis.function_signatures@[function.0 as int],
        ),
    ensures
        exists|middle: Analysis<'a>| #[trigger] analyzed(&analysis, &middle, &result.0, &result.1),
        result.0.source == analysis.source,
        result.0.program == analysis.program,
        match entry_fault(&analysis) {
            Some(_) => result.1.entry_point is None,
            None => result.1.entry_point is Some && Some(result.1.entry_point->0.function) == function_named(
                analysis.function_names@,
                "main"@,
                0,
            ),
        },
        result.1.diagnostics.wf(),
        result.1.warnings.wf(),
        result.1.entry_point is None ==> result.1.diagnostics@.len() > 0,
{
    let mut diagnostics = Diagnostics::new();
    let entry_point = entry_point(&analysis, &mut diagnostics);
    assert(diagnostics@ =~= entry_diagnostics(&analysis));
    let mut unions = UnionValidator {
        analysis,
        diagnostics,
        warnings: Warnings::new(),
        tests: Vec::new(),
        switches: Vec::new(),
        tries: Vec::new(),
        narrowed: Vec::new(),
    };
    assert(unions@ =~= before_unions(&analysis));
    unions.functions();
    let UnionValidator { analysis: middle, diagnostics, warnings, tests, switches, tries, narrowed } = unions;
    let mut changes = MutabilityValidator {
        analysis: &middle,
        diagnostics,
        resolutions: Vec::new(),
        deferred: Vec::new(),
        subjects: Vec::new(),
    };
    assert(changes@ =~= MutabilityState {
        diagnostics: changes@.diagnostics,
        rights: seq![],
        deferred: seq![],
        subjects: seq![],
    });
    changes.validate();
    let MutabilityValidator { analysis: _, diagnostics, resolutions, deferred, subjects } = changes;
    let ghost kept = middle;
    let mut flow = FlowValidator {
        analysis: middle,
        diagnostics,
        warnings,
        facts: FlowFacts {
            summaries: Vec::new(),
            returns: Vec::new(),
            completions: Vec::new(),
            loop_controls: Vec::new(),
            deferred: Vec::new(),
        },
        loops: Vec::new(),
        switches,
        tries,
    };
    assert(flow@ =~= before_flow(&kept, diagnostics@, warnings@));
    flow.functions();
    let FlowValidator { analysis: after, diagnostics, warnings, facts, loops: _, switches, tries } = flow;
    let open = keep_open(&after.deferred, &facts.deferred);
    let facts = SemanticResult {
        diagnostics,
        warnings,
        entry_point,
        mutability: resolutions,
        mutation_subjects: subjects,
        deferred_mutability: deferred,
        union_tests: tests,
        switches,
        tries,
        flow: FlowFacts {
            summaries: facts.summaries,
            returns: facts.returns,
            completions: facts.completions,
            loop_controls: facts.loop_controls,
            deferred: open,
        },
    };
    let outcome = (after, facts);
    assert(analyzed(&analysis, &kept, &outcome.0, &outcome.1));
    outcome
}

} // verus!
