//! The checked boundary between the front end and what consumes its facts.
//!
//! A handoff is accepted when the facts of name and type analysis and those of semantic validation
//! cover the program and agree with it and with one another.

use crate::analysis::{
    AccessPathStep, AlternativeView, Analysis, AstNode, Binding, BindingId, BindingNode, CallTarget, CallableId,
    ConstructorKind, DeclarationId, DeclarationNode, DeclarationRecord, FunctionId, FunctionName,
    FunctionSignature, MemberStorage, NameResolution, ParameterSignature, ProjectionKind, ResolvedType,
    StructMember, TupleMember, TypeDeclarationId, TypeDefinitionKind, TypeId, TypeName, TypeState,
    UnionAlternative, UnionInjection, alternative_payload, alternative_views, contains_alternative, count_facts,
    facts_of, function_named, injection_of, latest, latest_fact, lists, payload_of, primitive_type, state_of,
    target_of, unit_type, use_of,
};
use crate::ast::{
    AssignmentTarget, Declaration, Expression, ExpressionKind, Parameter, PrimitiveType, Statement,
    StatementBody, StatementKind, SwitchArm,
};
use crate::diagnostic::{Diagnostic, compiler_error};
use crate::semantic::{
    FlowRecord, FlowSubject, FunctionCompletion, MutabilityOperation, MutabilityPath, MutabilityResolution,
    MutabilitySubject, PlaceStep, SemanticResult, SwitchArmResolution, SwitchResolution, TryAction,
    TryResolution,
};
use crate::semantic::entry::{starts, valid_main_signature};
use crate::semantic::flow::FallthroughKind;
use crate::semantic::subjects::{Node, Visit, functions_before, program_visits, visit_program};
use crate::source::Span;
use crate::text::same_text;
use vstd::prelude::*;
use vstd::string::*;

verus! {

/// A verdict on a handoff: nothing is wrong, or the first thing that is.
pub type Verdict = Result<(), &'static str>;

/// The first verdict if it is a fault, else the second.
pub open spec fn both(first: Verdict, second: Verdict) -> Verdict {
    match first {
        Ok(_) => second,
        Err(fault) => Err(fault),
    }
}

/// A fault unless a condition holds.
pub open spec fn unless(holds: bool, fault: &'static str) -> Verdict {
    if holds {
        Ok(())
    } else {
        Err(fault)
    }
}

fn require(holds: bool, fault: &'static str) -> (result: Verdict)
    ensures
        result == unless(holds, fault),
{
    if holds {
        Ok(())
    } else {
        Err(fault)
    }
}

/// A node of a program, named by its kind and its span, which holds the number of its tree.
#[derive(Clone, Copy, Debug, Eq, PartialEq, Structural)]
pub enum NodeId {
    Type(Span),
    Parameter(Span),
    Block(Span),
    Statement(Span),
    StatementBody(Span),
    Expression(Span),
    ExpressionBody(Span),
    SwitchArm(Span),
}

pub open spec fn node_id(node: Node) -> NodeId {
    match node {
        Node::Type(node) => NodeId::Type(node.span),
        Node::Parameter(node) => NodeId::Parameter(node.span),
        Node::Block(node) => NodeId::Block(node.span),
        Node::Statement(node) => NodeId::Statement(node.span),
        Node::StatementBody(node) => NodeId::StatementBody(node.span),
        Node::Expression(node) => NodeId::Expression(node.span),
        Node::ExpressionBody(node) => NodeId::ExpressionBody(node.span),
        Node::SwitchArm(node) => NodeId::SwitchArm(node.span),
    }
}

fn identify(node: &Node) -> (result: NodeId)
    ensures
        result == node_id(*node),
{
    match node {
        Node::Type(node) => NodeId::Type(node.span),
        Node::Parameter(node) => NodeId::Parameter(node.span),
        Node::Block(node) => NodeId::Block(node.span),
        Node::Statement(node) => NodeId::Statement(node.span),
        Node::StatementBody(node) => NodeId::StatementBody(node.span),
        Node::Expression(node) => NodeId::Expression(node.span),
        Node::ExpressionBody(node) => NodeId::ExpressionBody(node.span),
        Node::SwitchArm(node) => NodeId::SwitchArm(node.span),
    }
}

/// The binding that a node introduces.
pub open spec fn introduces(node: Node) -> Option<BindingNode> {
    match node {
        Node::Parameter(parameter) => Some(BindingNode::Parameter(parameter.span)),
        Node::Statement(statement) => match &statement.kind {
            StatementKind::Local { .. } => Some(BindingNode::Local(statement.span)),
            StatementKind::For { .. } => Some(BindingNode::Loop(statement.span)),
            _ => None,
        },
        _ => None,
    }
}

fn introduced_by(node: &Node) -> (result: Option<BindingNode>)
    ensures
        result == introduces(*node),
{
    match node {
        Node::Parameter(parameter) => Some(BindingNode::Parameter(parameter.span)),
        Node::Statement(statement) => match &statement.kind {
            StatementKind::Local { .. } => Some(BindingNode::Local(statement.span)),
            StatementKind::For { .. } => Some(BindingNode::Loop(statement.span)),
            _ => None,
        },
        _ => None,
    }
}

/// What a node assigns to.
pub open spec fn assigns(node: Node) -> Option<&AssignmentTarget> {
    match node {
        Node::Statement(statement) => match &statement.kind {
            StatementKind::Assignment { target, .. } => Some(target),
            _ => None,
        },
        _ => None,
    }
}

fn assigned_by<'a>(node: &Node<'a>) -> (result: Option<&'a AssignmentTarget>)
    ensures
        result == assigns(*node),
{
    match node {
        Node::Statement(statement) => match &statement.kind {
            StatementKind::Assignment { target, .. } => Some(target),
            _ => None,
        },
        _ => None,
    }
}

/// The identifier that a node uses as the name of a value.
pub open spec fn uses(node: Node) -> Option<Span> {
    match node {
        Node::Expression(expression) => match &expression.kind {
            ExpressionKind::Identifier(identifier) => Some(identifier.span),
            _ => None,
        },
        Node::Statement(statement) => match &statement.kind {
            StatementKind::Assignment { target, .. } => Some(target.root.span),
            _ => None,
        },
        _ => None,
    }
}

fn used_by(node: &Node) -> (result: Option<Span>)
    ensures
        result == uses(*node),
{
    match node {
        Node::Expression(expression) => match &expression.kind {
            ExpressionKind::Identifier(identifier) => Some(identifier.span),
            _ => None,
        },
        Node::Statement(statement) => match &statement.kind {
            StatementKind::Assignment { target, .. } => Some(target.root.span),
            _ => None,
        },
        _ => None,
    }
}

/// How many of the first `count` nodes introduce a binding.
pub open spec fn bindings_before(visits: Seq<Visit>, count: int) -> nat
    decreases count,
{
    if count <= 0 {
        0
    } else if introduces(visits[count - 1].node) is Some {
        bindings_before(visits, count - 1) + 1
    } else {
        bindings_before(visits, count - 1)
    }
}

pub open spec fn shows(visit: Visit, id: NodeId) -> bool {
    node_id(visit.node) == id
}

pub open spec fn binds(visit: Visit, binding: BindingNode) -> bool {
    introduces(visit.node) == Some(binding)
}

pub open spec fn replaces(visit: Visit, target: Span) -> bool {
    assigns(visit.node) matches Some(found) && found.span == target
}

pub open spec fn reads(visit: Visit, identifier: Span) -> bool {
    uses(visit.node) == Some(identifier)
}

/// Whether a declaration stands for a node.
pub open spec fn declares(declaration: Declaration, node: DeclarationNode) -> bool {
    match (declaration, node) {
        (Declaration::Type(found), DeclarationNode::Type(span)) => found.span == span,
        (Declaration::Function(found), DeclarationNode::Function(span)) => found.span == span,
        _ => false,
    }
}

/// No other type name shares the name or the identity of an entry.
pub open spec fn type_name_alone(names: Seq<TypeName>, index: int) -> bool {
    forall|j: int|
        0 <= j < names.len() && j != index ==> (#[trigger] names[j]).name@ != names[index].name@ && names[j].id
            != names[index].id
}

/// No other function name shares the name or the identity of an entry.
pub open spec fn function_name_alone(names: Seq<FunctionName>, index: int) -> bool {
    forall|j: int|
        0 <= j < names.len() && j != index ==> (#[trigger] names[j]).name@ != names[index].name@ && names[j].id
            != names[index].id
}

/// No other record is about the declaration of a record.
pub open spec fn declaration_alone(records: Seq<DeclarationRecord>, index: int) -> bool {
    forall|j: int| 0 <= j < records.len() && j != index ==> (#[trigger] records[j]).node != records[index].node
}

/// No other binding is introduced by the node of a binding.
pub open spec fn binding_alone(bindings: Seq<Binding>, index: int) -> bool {
    forall|j: int| 0 <= j < bindings.len() && j != index ==> (#[trigger] bindings[j]).node != bindings[index].node
}

fn is_type_name_alone(records: &Vec<TypeName>, index: usize) -> (result: bool)
    requires
        index < records@.len(),
    ensures
        result == type_name_alone(records@, index as int),
{
    let mut other: usize = 0;
    while other < records.len()
        invariant
            index < records@.len(),
            other <= records@.len(),
            forall|j: int|
                0 <= j < other && j != index ==> (#[trigger] records@[j]).name@ != records@[index as int].name@ && records@[j].id
                    != records@[index as int].id,
        decreases records@.len() - other,
    {
        if other != index && (same_text(records[other].name.as_str(), records[index].name.as_str()) || records[other].id
            == records[index].id) {
            return false;
        }
        other += 1;
    }
    true
}

fn is_function_name_alone(records: &Vec<FunctionName>, index: usize) -> (result: bool)
    requires
        index < records@.len(),
    ensures
        result == function_name_alone(records@, index as int),
{
    let mut other: usize = 0;
    while other < records.len()
        invariant
            index < records@.len(),
            other <= records@.len(),
            forall|j: int|
                0 <= j < other && j != index ==> (#[trigger] records@[j]).name@ != records@[index as int].name@ && records@[j].id
                    != records@[index as int].id,
        decreases records@.len() - other,
    {
        if other != index && (same_text(records[other].name.as_str(), records[index].name.as_str()) || records[other].id
            == records[index].id) {
            return false;
        }
        other += 1;
    }
    true
}

fn is_declaration_alone(records: &Vec<DeclarationRecord>, index: usize) -> (result: bool)
    requires
        index < records@.len(),
    ensures
        result == declaration_alone(records@, index as int),
{
    let mut other: usize = 0;
    while other < records.len()
        invariant
            index < records@.len(),
            other <= records@.len(),
            forall|j: int|
                0 <= j < other && j != index ==> (#[trigger] records@[j]).node != records@[index as int].node,
        decreases records@.len() - other,
    {
        if other != index && (records[other].node == records[index].node) {
            return false;
        }
        other += 1;
    }
    true
}

fn is_binding_alone(records: &Vec<Binding>, index: usize) -> (result: bool)
    requires
        index < records@.len(),
    ensures
        result == binding_alone(records@, index as int),
{
    let mut other: usize = 0;
    while other < records.len()
        invariant
            index < records@.len(),
            other <= records@.len(),
            forall|j: int|
                0 <= j < other && j != index ==> (#[trigger] records@[j]).node != records@[index as int].node,
        decreases records@.len() - other,
    {
        if other != index && (records[other].node == records[index].node) {
            return false;
        }
        other += 1;
    }
    true
}

pub open spec fn is_literal(kind: ExpressionKind) -> bool {
    kind is Integer || kind is Float || kind is String || kind is Character || kind is Boolean
}

fn literal_kind(kind: &ExpressionKind) -> (result: bool)
    ensures
        result == is_literal(*kind),
{
    match kind {
        ExpressionKind::Integer
        | ExpressionKind::Float
        | ExpressionKind::String(_)
        | ExpressionKind::Character(_)
        | ExpressionKind::Boolean(_) => true,
        _ => false,
    }
}

/// The expression that a node is.
pub open spec fn expression_of(node: Node) -> Option<&Expression> {
    match node {
        Node::Expression(expression) => Some(expression),
        _ => None,
    }
}

fn as_expression<'a>(node: &Node<'a>) -> (result: Option<&'a Expression>)
    ensures
        result == expression_of(*node),
{
    match node {
        Node::Expression(expression) => Some(expression),
        _ => None,
    }
}

pub open spec fn literal_shown(visit: Visit, span: Span) -> bool {
    expression_of(visit.node) matches Some(expression) && expression.span == span && is_literal(expression.kind)
}

pub open spec fn conversion_shown(visit: Visit, span: Span) -> bool {
    expression_of(visit.node) matches Some(expression) && expression.span == span && expression.kind is Conversion
}

pub open spec fn call_shown(visit: Visit, span: Span) -> bool {
    expression_of(visit.node) matches Some(expression) && expression.span == span && expression.kind is Call
}

/// Whether a node is a call through the given callee.
pub open spec fn called(visit: Visit, callee: Span) -> bool {
    expression_of(visit.node) matches Some(expression) && expression.kind matches ExpressionKind::Call {
        callee: found,
        ..
    } && found.span == callee
}

/// The first of the nodes from one on that is the expression with the given span.
pub open spec fn expression_from(visits: Seq<Visit>, span: Span, from: int) -> Option<&Expression>
    decreases visits.len() - from,
{
    if from < 0 || from >= visits.len() {
        None
    } else {
        match expression_of(visits[from].node) {
            Some(expression) if expression.span == span => Some(expression),
            _ => expression_from(visits, span, from + 1),
        }
    }
}

/// The first of the nodes from one on that assigns to the target with the given span.
pub open spec fn target_from(visits: Seq<Visit>, span: Span, from: int) -> Option<&AssignmentTarget>
    decreases visits.len() - from,
{
    if from < 0 || from >= visits.len() {
        None
    } else {
        match assigns(visits[from].node) {
            Some(target) if target.span == span => Some(target),
            _ => target_from(visits, span, from + 1),
        }
    }
}

/// Whether an assignment target has a suffix.
pub open spec fn has_suffix(target: &AssignmentTarget, suffix: Span) -> bool {
    exists|i: int| 0 <= i < target.suffixes@.len() && (#[trigger] target.suffixes@[i]).span == suffix
}

fn find_suffix(target: &AssignmentTarget, suffix: Span) -> (result: bool)
    ensures
        result == has_suffix(target, suffix),
{
    let mut index: usize = 0;
    while index < target.suffixes.len()
        invariant
            index <= target.suffixes@.len(),
            forall|i: int| 0 <= i < index ==> (#[trigger] target.suffixes@[i]).span != suffix,
        decreases target.suffixes@.len() - index,
    {
        if target.suffixes[index].span == suffix {
            return true;
        }
        index += 1;
    }
    false
}

/// Two injections that say the same.
pub open spec fn same_injection(left: UnionInjection, right: UnionInjection) -> bool {
    left.node == right.node && left.union_type == right.union_type && left.alternative@ == right.alternative@
}

fn same_union_injection(left: &UnionInjection, right: &UnionInjection) -> (result: bool)
    ensures
        result == same_injection(*left, *right),
{
    left.node == right.node && left.union_type == right.union_type && left.alternative.same(&right.alternative)
}

/// How many of the first `count` injections say the same as one.
pub open spec fn injections_before(injections: Seq<UnionInjection>, wanted: UnionInjection, count: int) -> nat
    decreases count,
{
    if count <= 0 {
        0
    } else if same_injection(injections[count - 1], wanted) {
        injections_before(injections, wanted, count - 1) + 1
    } else {
        injections_before(injections, wanted, count - 1)
    }
}

fn count_injections(injections: &Vec<UnionInjection>, wanted: &UnionInjection, end: usize) -> (result: usize)
    requires
        end <= injections@.len(),
    ensures
        result == injections_before(injections@, *wanted, end as int),
{
    let mut count: usize = 0;
    let mut index: usize = 0;
    while index < end
        invariant
            index <= end <= injections@.len(),
            count <= index,
            count == injections_before(injections@, *wanted, index as int),
        decreases end - index,
    {
        if same_union_injection(&injections[index], wanted) {
            count += 1;
        }
        index += 1;
    }
    count
}

/// An earlier injection of the same node into the same union.
pub open spec fn injected_before(injections: Seq<UnionInjection>, index: int) -> bool {
    exists|j: int|
        0 <= j < index && (#[trigger] injections[j]).node == injections[index].node && injections[j].union_type
            == injections[index].union_type
}

fn was_injected(injections: &Vec<UnionInjection>, index: usize) -> (result: bool)
    requires
        index < injections@.len(),
    ensures
        result == injected_before(injections@, index as int),
{
    let mut prior: usize = 0;
    while prior < index
        invariant
            prior <= index < injections@.len(),
            forall|j: int|
                0 <= j < prior ==> !((#[trigger] injections@[j]).node == injections@[index as int].node
                    && injections@[j].union_type == injections@[index as int].union_type),
        decreases index - prior,
    {
        if injections[prior].node == injections[index].node && injections[prior].union_type
            == injections[index].union_type {
            return true;
        }
        prior += 1;
    }
    false
}

/// Whether a call makes a value of a declared type or an error.
pub open spec fn constructs(target: CallTarget) -> bool {
    target matches CallTarget::Callable(CallableId::Constructor(_)) || target is QualifiedConstructor
        || target is ErrorConstructor
}

/// The statement that a node is.
pub open spec fn statement_of(node: Node) -> Option<&Statement> {
    match node {
        Node::Statement(statement) => Some(statement),
        _ => None,
    }
}

fn as_statement<'a>(node: &Node<'a>) -> (result: Option<&'a Statement>)
    ensures
        result == statement_of(*node),
{
    match node {
        Node::Statement(statement) => Some(statement),
        _ => None,
    }
}

/// The first of the nodes from one on that is the statement with the given span.
pub open spec fn statement_from(visits: Seq<Visit>, span: Span, from: int) -> Option<&Statement>
    decreases visits.len() - from,
{
    if from < 0 || from >= visits.len() {
        None
    } else {
        match statement_of(visits[from].node) {
            Some(statement) if statement.span == span => Some(statement),
            _ => statement_from(visits, span, from + 1),
        }
    }
}

/// The function that the first occurrence of a node from one on stands in.
pub open spec fn function_from(visits: Seq<Visit>, id: NodeId, from: int) -> Option<usize>
    decreases visits.len() - from,
{
    if from < 0 || from >= visits.len() {
        None
    } else if node_id(visits[from].node) == id && visits[from].at.function is Some {
        visits[from].at.function
    } else {
        function_from(visits, id, from + 1)
    }
}

/// The first flow record from one on that is about a subject.
pub open spec fn record_from(records: Seq<FlowRecord>, subject: FlowSubject, from: int) -> Option<int>
    decreases records.len() - from,
{
    if from < 0 || from >= records.len() {
        None
    } else if records[from].subject == subject {
        Some(from)
    } else {
        record_from(records, subject, from + 1)
    }
}

/// How many of the first `count` flow records are about a subject.
pub open spec fn records_before(records: Seq<FlowRecord>, subject: FlowSubject, count: int) -> nat
    decreases count,
{
    if count <= 0 {
        0
    } else if records[count - 1].subject == subject {
        records_before(records, subject, count - 1) + 1
    } else {
        records_before(records, subject, count - 1)
    }
}

pub fn count_records(records: &Vec<FlowRecord>, subject: FlowSubject) -> (result: usize)
    ensures
        result == records_before(records@, subject, records@.len() as int),
{
    let mut count: usize = 0;
    let mut index: usize = 0;
    while index < records.len()
        invariant
            index <= records@.len(),
            count <= index,
            count == records_before(records@, subject, index as int),
        decreases records@.len() - index,
    {
        if records[index].subject == subject {
            count += 1;
        }
        index += 1;
    }
    count
}

pub fn find_record(records: &Vec<FlowRecord>, subject: FlowSubject) -> (result: Option<usize>)
    ensures
        match result {
            Some(index) => record_from(records@, subject, 0) == Some(index as int) && index < records@.len(),
            None => record_from(records@, subject, 0) is None,
        },
{
    let mut index: usize = 0;
    while index < records.len()
        invariant
            index <= records@.len(),
            record_from(records@, subject, index as int) == record_from(records@, subject, 0),
        decreases records@.len() - index,
    {
        if records[index].subject == subject {
            return Some(index);
        }
        index += 1;
    }
    None
}

/// How many of the first `count` completions are of a function.
pub open spec fn completions_before(completions: Seq<FunctionCompletion>, function: FunctionId, count: int) -> nat
    decreases count,
{
    if count <= 0 {
        0
    } else if completions[count - 1].function == function {
        completions_before(completions, function, count - 1) + 1
    } else {
        completions_before(completions, function, count - 1)
    }
}

fn count_completions(completions: &Vec<FunctionCompletion>, function: FunctionId) -> (result: usize)
    ensures
        result == completions_before(completions@, function, completions@.len() as int),
{
    let mut count: usize = 0;
    let mut index: usize = 0;
    while index < completions.len()
        invariant
            index <= completions@.len(),
            count <= index,
            count == completions_before(completions@, function, index as int),
        decreases completions@.len() - index,
    {
        if completions[index].function == function {
            count += 1;
        }
        index += 1;
    }
    count
}

/// The error alternatives among the first `count`.
pub open spec fn errors_before(alternatives: Seq<UnionAlternative>, count: int) -> nat
    decreases count,
{
    if count <= 0 {
        0
    } else if alternatives[count - 1] is Error {
        errors_before(alternatives, count - 1) + 1
    } else {
        errors_before(alternatives, count - 1)
    }
}

/// The first `count` alternatives without those that are errors.
pub open spec fn successes_before(alternatives: Seq<UnionAlternative>, count: int) -> Seq<AlternativeView>
    decreases count,
{
    if count <= 0 {
        seq![]
    } else if alternatives[count - 1] is Error {
        successes_before(alternatives, count - 1)
    } else {
        successes_before(alternatives, count - 1).push(alternatives[count - 1]@)
    }
}

/// The alternatives that carry just the unit type, among the first `count`.
pub open spec fn units_before(alternatives: Seq<UnionAlternative>, count: int) -> nat
    decreases count,
{
    if count <= 0 {
        0
    } else if alternatives[count - 1] == UnionAlternative::Untagged(unit_type()) {
        units_before(alternatives, count - 1) + 1
    } else {
        units_before(alternatives, count - 1)
    }
}

fn split_alternatives(alternatives: &Vec<UnionAlternative>) -> (result: (usize, Vec<UnionAlternative>))
    ensures
        result.0 == errors_before(alternatives@, alternatives@.len() as int),
        alternative_views(result.1@) == successes_before(alternatives@, alternatives@.len() as int),
{
    let mut errors: usize = 0;
    let mut successes: Vec<UnionAlternative> = Vec::new();
    assert(alternative_views(successes@) =~= seq![]);
    let mut index: usize = 0;
    while index < alternatives.len()
        invariant
            index <= alternatives@.len(),
            errors <= index,
            errors == errors_before(alternatives@, index as int),
            alternative_views(successes@) == successes_before(alternatives@, index as int),
        decreases alternatives@.len() - index,
    {
        match &alternatives[index] {
            UnionAlternative::Error(_) => {
                errors += 1;
            },
            _ => {
                let copy = alternatives[index].duplicate();
                let ghost before = successes@;
                successes.push(copy);
                assert(alternative_views(successes@) =~= alternative_views(before).push(alternatives@[index as int]@));
            },
        }
        index += 1;
    }
    (errors, successes)
}

fn same_alternatives(left: &Vec<UnionAlternative>, right: &Vec<UnionAlternative>) -> (result: bool)
    ensures
        result == (alternative_views(left@) == alternative_views(right@)),
{
    if left.len() != right.len() {
        assert(alternative_views(left@).len() != alternative_views(right@).len());
        return false;
    }
    let mut index: usize = 0;
    while index < left.len()
        invariant
            index <= left@.len(),
            left@.len() == right@.len(),
            forall|i: int| 0 <= i < index ==> (#[trigger] left@[i])@ == right@[i]@,
        decreases left@.len() - index,
    {
        if !left[index].same(&right[index]) {
            assert(alternative_views(left@)[index as int] != alternative_views(right@)[index as int]);
            return false;
        }
        index += 1;
    }
    assert(alternative_views(left@) =~= alternative_views(right@));
    true
}

fn count_units(alternatives: &Vec<UnionAlternative>) -> (result: usize)
    ensures
        result == units_before(alternatives@, alternatives@.len() as int),
{
    let mut count: usize = 0;
    let mut index: usize = 0;
    while index < alternatives.len()
        invariant
            index <= alternatives@.len(),
            count <= index,
            count == units_before(alternatives@, index as int),
        decreases alternatives@.len() - index,
    {
        match &alternatives[index] {
            UnionAlternative::Untagged(payload) => {
                if payload.0 == 0 {
                    count += 1;
                }
            },
            _ => {},
        }
        index += 1;
    }
    count
}

/// No two alternatives of a list are the same.
pub open spec fn all_different(alternatives: Seq<UnionAlternative>) -> bool {
    forall|i: int, j: int|
        0 <= i < j < alternatives.len() ==> (#[trigger] alternatives[i])@ != (#[trigger] alternatives[j])@
}

/// Every alternative of one list is in another.
pub open spec fn all_listed(alternatives: Seq<UnionAlternative>, within: Seq<UnionAlternative>) -> bool {
    forall|i: int| 0 <= i < alternatives.len() ==> lists(within, (#[trigger] alternatives[i])@)
}

fn are_listed(alternatives: &Vec<UnionAlternative>, within: &Vec<UnionAlternative>) -> (result: bool)
    ensures
        result == all_listed(alternatives@, within@),
{
    let mut index: usize = 0;
    while index < alternatives.len()
        invariant
            index <= alternatives@.len(),
            forall|i: int| 0 <= i < index ==> lists(within@, (#[trigger] alternatives@[i])@),
        decreases alternatives@.len() - index,
    {
        if !contains_alternative(within, &alternatives[index]) {
            return false;
        }
        index += 1;
    }
    true
}

fn are_different(alternatives: &Vec<UnionAlternative>) -> (result: bool)
    ensures
        result == all_different(alternatives@),
{
    let mut later: usize = 0;
    while later < alternatives.len()
        invariant
            later <= alternatives@.len(),
            forall|i: int, j: int|
                0 <= i < j < later ==> (#[trigger] alternatives@[i])@ != (#[trigger] alternatives@[j])@,
        decreases alternatives@.len() - later,
    {
        let mut earlier: usize = 0;
        while earlier < later
            invariant
                earlier <= later < alternatives@.len(),
                forall|i: int| 0 <= i < earlier ==> (#[trigger] alternatives@[i])@ != alternatives@[later as int]@,
            decreases later - earlier,
        {
            if alternatives[earlier].same(&alternatives[later]) {
                return false;
            }
            earlier += 1;
        }
        later += 1;
    }
    true
}

/// Whether a `switch` has an arm.
pub open spec fn has_arm(arms: Seq<SwitchArm>, arm: Span) -> bool {
    exists|i: int| 0 <= i < arms.len() && (#[trigger] arms[i]).span == arm
}

fn find_arm(arms: &Vec<SwitchArm>, arm: Span) -> (result: bool)
    ensures
        result == has_arm(arms@, arm),
{
    let mut index: usize = 0;
    while index < arms.len()
        invariant
            index <= arms@.len(),
            forall|i: int| 0 <= i < index ==> (#[trigger] arms@[i]).span != arm,
        decreases arms@.len() - index,
    {
        if arms[index].span == arm {
            return true;
        }
        index += 1;
    }
    false
}

pub open spec fn body_span(body: Option<StatementBody>) -> Option<Span> {
    match body {
        Some(body) => Some(body.span),
        None => None,
    }
}

/// Two subjects that ask for the same right. A call has one receiver.
pub open spec fn same_subject(left: MutabilitySubject, right: MutabilitySubject) -> bool {
    match (left, right) {
        (MutabilitySubject::Assignment(left), MutabilitySubject::Assignment(right)) => left == right,
        (
            MutabilitySubject::Receiver { call: left, .. },
            MutabilitySubject::Receiver { call: right, .. },
        ) => left == right,
        (
            MutabilitySubject::Argument { call: left_call, argument: left },
            MutabilitySubject::Argument { call: right_call, argument: right },
        ) => left_call == right_call && left == right,
        _ => false,
    }
}

fn same_mutability_subject(left: MutabilitySubject, right: MutabilitySubject) -> (result: bool)
    ensures
        result == same_subject(left, right),
{
    match (left, right) {
        (MutabilitySubject::Assignment(left), MutabilitySubject::Assignment(right)) => left == right,
        (
            MutabilitySubject::Receiver { call: left, .. },
            MutabilitySubject::Receiver { call: right, .. },
        ) => left == right,
        (
            MutabilitySubject::Argument { call: left_call, argument: left },
            MutabilitySubject::Argument { call: right_call, argument: right },
        ) => left_call == right_call && left == right,
        _ => false,
    }
}

/// How many of the first `count` subjects ask for the same right as one.
pub open spec fn subjects_before(subjects: Seq<MutabilitySubject>, wanted: MutabilitySubject, count: int) -> nat
    decreases count,
{
    if count <= 0 {
        0
    } else if same_subject(subjects[count - 1], wanted) {
        subjects_before(subjects, wanted, count - 1) + 1
    } else {
        subjects_before(subjects, wanted, count - 1)
    }
}

/// How many of the first `count` authorizations give the right that a subject asks for.
pub open spec fn rights_before(rights: Seq<MutabilityResolution>, wanted: MutabilitySubject, count: int) -> nat
    decreases count,
{
    if count <= 0 {
        0
    } else if same_subject(rights[count - 1].subject, wanted) {
        rights_before(rights, wanted, count - 1) + 1
    } else {
        rights_before(rights, wanted, count - 1)
    }
}

fn count_subjects(subjects: &Vec<MutabilitySubject>, wanted: MutabilitySubject, end: usize) -> (result: usize)
    requires
        end <= subjects@.len(),
    ensures
        result == subjects_before(subjects@, wanted, end as int),
{
    let mut count: usize = 0;
    let mut index: usize = 0;
    while index < end
        invariant
            index <= end <= subjects@.len(),
            count <= index,
            count == subjects_before(subjects@, wanted, index as int),
        decreases end - index,
    {
        if same_mutability_subject(subjects[index], wanted) {
            count += 1;
        }
        index += 1;
    }
    count
}

fn count_rights(rights: &Vec<MutabilityResolution>, wanted: MutabilitySubject, end: usize) -> (result: usize)
    requires
        end <= rights@.len(),
    ensures
        result == rights_before(rights@, wanted, end as int),
{
    let mut count: usize = 0;
    let mut index: usize = 0;
    while index < end
        invariant
            index <= end <= rights@.len(),
            count <= index,
            count == rights_before(rights@, wanted, index as int),
        decreases end - index,
    {
        if same_mutability_subject(rights[index].subject, wanted) {
            count += 1;
        }
        index += 1;
    }
    count
}

/// Whether a call has an argument.
pub open spec fn has_argument(call: &Expression, argument: Span) -> bool {
    call.kind matches ExpressionKind::Call { arguments, .. } && exists|i: int|
        0 <= i < arguments@.len() && (#[trigger] arguments@[i]).span == argument
}

fn find_argument(call: &Expression, argument: Span) -> (result: bool)
    ensures
        result == has_argument(call, argument),
{
    let arguments = match &call.kind {
        ExpressionKind::Call { arguments, .. } => arguments,
        _ => return false,
    };
    let mut index: usize = 0;
    while index < arguments.len()
        invariant
            call.kind matches ExpressionKind::Call { arguments: found, .. } && found == *arguments,
            index <= arguments@.len(),
            forall|i: int| 0 <= i < index ==> (#[trigger] arguments@[i]).span != argument,
        decreases arguments@.len() - index,
    {
        if arguments[index].span == argument {
            return true;
        }
        index += 1;
    }
    false
}

fn same_steps(left: &Vec<AccessPathStep>, right: &Vec<AccessPathStep>) -> (result: bool)
    ensures
        result == (left@ == right@),
{
    if left.len() != right.len() {
        return false;
    }
    let mut index: usize = 0;
    while index < left.len()
        invariant
            index <= left@.len(),
            left@.len() == right@.len(),
            forall|i: int| 0 <= i < index ==> #[trigger] left@[i] == right@[i],
        decreases left@.len() - index,
    {
        if left[index] != right[index] {
            return false;
        }
        index += 1;
    }
    assert(left@ =~= right@);
    true
}

/// The flow subject that a node is.
pub open spec fn flow_subject(node: Node) -> Option<FlowSubject> {
    match node {
        Node::Block(node) => Some(FlowSubject::Block(node.span)),
        Node::Statement(node) => Some(FlowSubject::Statement(node.span)),
        Node::StatementBody(node) => Some(FlowSubject::StatementBody(node.span)),
        Node::Expression(node) => Some(FlowSubject::Expression(node.span)),
        Node::ExpressionBody(node) => Some(FlowSubject::ExpressionBody(node.span)),
        Node::SwitchArm(node) => Some(FlowSubject::SwitchArm(node.span)),
        Node::Type(_) => None,
        Node::Parameter(_) => None,
    }
}

fn flow_subject_of(node: &Node) -> (result: Option<FlowSubject>)
    ensures
        result == flow_subject(*node),
{
    match node {
        Node::Block(node) => Some(FlowSubject::Block(node.span)),
        Node::Statement(node) => Some(FlowSubject::Statement(node.span)),
        Node::StatementBody(node) => Some(FlowSubject::StatementBody(node.span)),
        Node::Expression(node) => Some(FlowSubject::Expression(node.span)),
        Node::ExpressionBody(node) => Some(FlowSubject::ExpressionBody(node.span)),
        Node::SwitchArm(node) => Some(FlowSubject::SwitchArm(node.span)),
        Node::Type(_) | Node::Parameter(_) => None,
    }
}

pub open spec fn flows(visit: Visit, subject: FlowSubject) -> bool {
    flow_subject(visit.node) == Some(subject)
}

pub open spec fn returned(visit: Visit, span: Span) -> bool {
    statement_of(visit.node) matches Some(statement) && statement.span == span && statement.kind is Return
}

/// The span of the `break` or `continue` that a node is.
pub open spec fn controls(node: Node) -> Option<Span> {
    match statement_of(node) {
        Some(statement) => match &statement.kind {
            StatementKind::Break => Some(statement.span),
            StatementKind::Continue => Some(statement.span),
            _ => None,
        },
        None => None,
    }
}

fn controlled_by(node: &Node) -> (result: Option<Span>)
    ensures
        result == controls(*node),
{
    match as_statement(node) {
        Some(statement) => match &statement.kind {
            StatementKind::Break | StatementKind::Continue => Some(statement.span),
            _ => None,
        },
        None => None,
    }
}

/// The innermost loop around a `break` or `continue`, looked up from one node on.
pub open spec fn loop_from(visits: Seq<Visit>, control: Span, from: int) -> Option<Span>
    decreases visits.len() - from,
{
    if from < 0 || from >= visits.len() {
        None
    } else if controls(visits[from].node) == Some(control) && visits[from].at.innermost is Some {
        visits[from].at.innermost
    } else {
        loop_from(visits, control, from + 1)
    }
}

/// What a handoff is judged by: the two sets of facts and the nodes of the program.
pub struct Handoff<'a> {
    pub analysis: &'a Analysis<'a>,
    pub semantic: &'a SemanticResult,
    pub visits: Seq<Visit<'a>>,
}

impl<'a> Handoff<'a> {
    /// Whether a node belongs to the program.
    pub open spec fn has(self, id: NodeId) -> bool {
        exists|i: int| 0 <= i < self.visits.len() && #[trigger] shows(self.visits[i], id)
    }

    /// Whether a node of the program introduces a binding.
    pub open spec fn has_binding(self, binding: BindingNode) -> bool {
        exists|i: int| 0 <= i < self.visits.len() && #[trigger] binds(self.visits[i], binding)
    }

    /// Whether the program assigns to a target.
    pub open spec fn has_assignment(self, target: Span) -> bool {
        exists|i: int| 0 <= i < self.visits.len() && #[trigger] replaces(self.visits[i], target)
    }

    /// Whether the program uses an identifier as the name of a value.
    pub open spec fn has_use(self, identifier: Span) -> bool {
        exists|i: int| 0 <= i < self.visits.len() && #[trigger] reads(self.visits[i], identifier)
    }

    /// Whether a declaration belongs to the program.
    pub open spec fn has_declaration(self, node: DeclarationNode) -> bool {
        exists|i: int|
            0 <= i < self.analysis.program.declarations@.len() && #[trigger] declares(
                self.analysis.program.declarations@[i],
                node,
            )
    }

    /// Whether a node that a deferred decision is about belongs to the program.
    pub open spec fn has_subject(self, node: AstNode) -> bool {
        match node {
            AstNode::Declaration(node) => self.has_declaration(node),
            AstNode::Binding(node) => self.has_binding(node),
            AstNode::Type(span) => self.has(NodeId::Type(span)),
            AstNode::Statement(span) => self.has(NodeId::Statement(span)),
            AstNode::Expression(span) => self.has(NodeId::Expression(span)),
            AstNode::AssignmentTarget(span) => self.has_assignment(span),
        }
    }

    /// A state that a finished program may hold.
    pub open spec fn final_state(self, state: TypeState) -> bool {
        match state {
            TypeState::Never => true,
            TypeState::Resolved(ty) => self.analysis.types.has(ty),
            TypeState::Error => false,
            TypeState::Deferred(_) => false,
        }
    }

    /// A state that names nothing out of range.
    pub open spec fn known_state(self, state: TypeState) -> bool {
        match state {
            TypeState::Resolved(ty) => self.analysis.types.has(ty),
            TypeState::Deferred(id) => id.0 < self.analysis.deferred@.len(),
            TypeState::Never => true,
            TypeState::Error => true,
        }
    }

    /// A settled type in range.
    pub open spec fn settled(self, state: TypeState) -> bool {
        state matches TypeState::Resolved(ty) && self.analysis.types.has(ty)
    }

    /// Whether the types that a definition is made of are settled.
    pub open spec fn definition_settled(self, kind: TypeDefinitionKind) -> bool {
        match kind {
            TypeDefinitionKind::Struct(members) => forall|i: int|
                0 <= i < members@.len() ==> self.settled((#[trigger] members@[i]).ty),
            TypeDefinitionKind::Tuple(members) => forall|i: int|
                0 <= i < members@.len() ==> self.settled((#[trigger] members@[i]).ty),
            TypeDefinitionKind::Union { alternatives, .. } => forall|i: int|
                0 <= i < alternatives@.len() ==> self.analysis.types.has(payload_of((#[trigger] alternatives@[i])@)),
            TypeDefinitionKind::Invalid => false,
        }
    }

    pub open spec fn declaration_record(self, index: int) -> Verdict {
        let record = self.analysis.declarations@[index];
        let known = match record.id {
            DeclarationId::Type(id) => id.0 < self.analysis.type_definitions@.len(),
            DeclarationId::Function(id) => id.0 < self.analysis.function_signatures@.len(),
        };
        both(
            unless(
                known && self.has_declaration(record.node),
                "declaration record has an invalid identity or foreign AST subject",
            ),
            unless(
                declaration_alone(self.analysis.declarations@, index),
                "declaration identity subject is duplicated",
            ),
        )
    }

    pub open spec fn binding_record(self, index: int) -> Verdict {
        let binding = self.analysis.bindings@[index];
        let annotation = self.analysis.binding_types@[index];
        both(
            unless(
                binding.id.0 == index && self.has_binding(binding.node),
                "binding record has an invalid identity or foreign AST subject",
            ),
            both(
                unless(binding_alone(self.analysis.bindings@, index), "binding identity subject is duplicated"),
                unless(
                    annotation.binding == binding.id && self.final_state(annotation.state),
                    "binding has a stale or unresolved final type",
                ),
            ),
        )
    }

    pub open spec fn definition_record(self, index: int) -> Verdict {
        let definition = self.analysis.type_definitions@[index];
        both(
            unless(
                definition.id.0 == index && self.has_declaration(DeclarationNode::Type(definition.node.span)),
                "type definition identity is invalid or cross-linked",
            ),
            unless(
                self.definition_settled(definition.kind),
                "type definition retains an invalid member or alternative type",
            ),
        )
    }

    pub open spec fn type_name_entry(self, index: int) -> Verdict {
        unless(
            self.analysis.type_names@[index].id.0 < self.analysis.type_definitions@.len() && type_name_alone(
                self.analysis.type_names@,
                index,
            ),
            "resolved type namespace is invalid or duplicated",
        )
    }

    pub open spec fn function_name_entry(self, index: int) -> Verdict {
        unless(
            self.analysis.function_names@[index].id.0 < self.analysis.function_signatures@.len() && function_name_alone(
                self.analysis.function_names@,
                index,
            ),
            "resolved function namespace is invalid or duplicated",
        )
    }

    /// Whether a parameter of a signature names a binding, a parameter of the program and a settled type.
    pub open spec fn parameter_known(self, parameter: ParameterSignature) -> bool {
        parameter.binding.0 < self.analysis.bindings@.len() && self.has(NodeId::Parameter(parameter.node.span))
            && self.settled(parameter.ty)
    }

    pub open spec fn signature_record(self, index: int) -> Verdict {
        let signature = self.analysis.function_signatures@[index];
        both(
            unless(
                signature.id.0 == index && self.has_declaration(DeclarationNode::Function(signature.node.span))
                    && self.settled(signature.result),
                "function signature identity or result type is invalid",
            ),
            unless(
                forall|i: int|
                    0 <= i < signature.parameters@.len() ==> self.parameter_known(#[trigger] signature.parameters@[i]),
                "function parameter signature is invalid or cross-linked",
            ),
        )
    }

    pub open spec fn deferred_record(self, index: int) -> Verdict {
        let deferred = self.analysis.deferred@[index];
        unless(
            deferred.id.0 == index && deferred.resolved && self.has_subject(deferred.node),
            "unresolved or invalid deferred analysis record",
        )
    }

    /// The declaration records from one on.
    pub open spec fn declaration_records(self, from: int) -> Verdict
        decreases self.analysis.declarations@.len() - from,
    {
        if from < 0 || from >= self.analysis.declarations@.len() {
            Ok(())
        } else {
            both(self.declaration_record(from), self.declaration_records(from + 1))
        }
    }

    /// The bindings from one on.
    pub open spec fn binding_records(self, from: int) -> Verdict
        decreases self.analysis.bindings@.len() - from,
    {
        if from < 0 || from >= self.analysis.bindings@.len() {
            Ok(())
        } else {
            both(self.binding_record(from), self.binding_records(from + 1))
        }
    }

    /// The type definitions from one on.
    pub open spec fn definition_records(self, from: int) -> Verdict
        decreases self.analysis.type_definitions@.len() - from,
    {
        if from < 0 || from >= self.analysis.type_definitions@.len() {
            Ok(())
        } else {
            both(self.definition_record(from), self.definition_records(from + 1))
        }
    }

    /// The type names from one on.
    pub open spec fn type_names(self, from: int) -> Verdict
        decreases self.analysis.type_names@.len() - from,
    {
        if from < 0 || from >= self.analysis.type_names@.len() {
            Ok(())
        } else {
            both(self.type_name_entry(from), self.type_names(from + 1))
        }
    }

    /// The function signatures from one on.
    pub open spec fn signature_records(self, from: int) -> Verdict
        decreases self.analysis.function_signatures@.len() - from,
    {
        if from < 0 || from >= self.analysis.function_signatures@.len() {
            Ok(())
        } else {
            both(self.signature_record(from), self.signature_records(from + 1))
        }
    }

    /// The function names from one on.
    pub open spec fn function_names(self, from: int) -> Verdict
        decreases self.analysis.function_names@.len() - from,
    {
        if from < 0 || from >= self.analysis.function_names@.len() {
            Ok(())
        } else {
            both(self.function_name_entry(from), self.function_names(from + 1))
        }
    }

    /// The deferred decisions from one on.
    pub open spec fn deferred_records(self, from: int) -> Verdict
        decreases self.analysis.deferred@.len() - from,
    {
        if from < 0 || from >= self.analysis.deferred@.len() {
            Ok(())
        } else {
            both(self.deferred_record(from), self.deferred_records(from + 1))
        }
    }

    /// Whether the tables of declarations, bindings and deferred decisions cover the program.
    pub open spec fn identities(self) -> Verdict {
        let declared = self.analysis.program.declarations@;
        let functions = functions_before(declared, declared.len() as int);
        let types = declared.len() - functions;
        both(
            unless(
                self.analysis.declarations@.len() == declared.len(),
                "declaration identity coverage is incomplete",
            ),
            both(
                unless(
                    self.analysis.type_definitions@.len() == types && self.analysis.function_signatures@.len()
                        == functions && self.analysis.type_names@.len() == types
                        && self.analysis.function_names@.len() == functions,
                    "declaration namespace or definition coverage is incomplete",
                ),
                both(
                    unless(
                        self.analysis.bindings@.len() == bindings_before(self.visits, self.visits.len() as int),
                        "binding identity coverage is incomplete",
                    ),
                    both(
                        unless(
                            self.analysis.binding_types@.len() == self.analysis.bindings@.len(),
                            "binding type coverage is incomplete",
                        ),
                        self.identity_records(),
                    ),
                ),
            ),
        )
    }

    pub open spec fn identity_records(self) -> Verdict {
        both(
            self.declaration_records(0),
            both(
                self.binding_records(0),
                both(
                    self.definition_records(0),
                    both(
                        self.type_names(0),
                        both(
                            self.signature_records(0),
                            both(
                                self.function_names(0),
                                both(
                                    self.deferred_records(0),
                                    unless(
                                        self.semantic.deferred_mutability@.len() == 0
                                            && self.semantic.flow.deferred@.len() == 0,
                                        "unresolved semantic obligation remains",
                                    ),
                                ),
                            ),
                        ),
                    ),
                ),
            ),
        )
    }

    /// Whether a literal belongs to the program.
    pub open spec fn has_literal(self, span: Span) -> bool {
        exists|i: int| 0 <= i < self.visits.len() && #[trigger] literal_shown(self.visits[i], span)
    }

    /// Whether a numeric conversion belongs to the program.
    pub open spec fn has_conversion(self, span: Span) -> bool {
        exists|i: int| 0 <= i < self.visits.len() && #[trigger] conversion_shown(self.visits[i], span)
    }

    /// Whether a call belongs to the program.
    pub open spec fn has_call(self, span: Span) -> bool {
        exists|i: int| 0 <= i < self.visits.len() && #[trigger] call_shown(self.visits[i], span)
    }

    /// Whether an expression is what a call calls.
    pub open spec fn is_callee(self, callee: Span) -> bool {
        exists|i: int| 0 <= i < self.visits.len() && #[trigger] called(self.visits[i], callee)
    }

    /// Whether a node is a call of a qualified constructor whose qualifier has the given span.
    pub open spec fn qualifies(self, visit: Visit, qualifier: Span) -> bool {
        &&& expression_of(visit.node) matches Some(call)
        &&& target_of(self.analysis, call.span) matches Some(CallTarget::QualifiedConstructor(_))
        &&& call.kind matches ExpressionKind::Call { callee, .. }
        &&& callee.kind matches ExpressionKind::Member { value, .. }
        &&& value.span == qualifier
    }

    /// Whether an expression is part of how a callee is written and has no value of its own.
    pub open spec fn callee_syntax(self, span: Span) -> bool {
        self.is_callee(span) || exists|i: int|
            0 <= i < self.visits.len() && #[trigger] self.qualifies(self.visits[i], span)
    }

    /// The type behind an identity.
    pub open spec fn type_at(self, ty: TypeId) -> Option<ResolvedType> {
        if self.analysis.types.has(ty) {
            Some(self.analysis.types.entries@[ty.0 as int])
        } else {
            None
        }
    }

    /// The kind of the definition behind an identity.
    pub open spec fn definition_at(self, declaration: TypeDeclarationId) -> Option<TypeDefinitionKind> {
        if declaration.0 < self.analysis.type_definitions@.len() {
            Some(self.analysis.type_definitions@[declaration.0 as int].kind)
        } else {
            None
        }
    }

    /// The alternatives of a union type.
    pub open spec fn union_alternatives(self, ty: TypeId) -> Option<Seq<UnionAlternative>> {
        match self.type_at(ty) {
            Some(ResolvedType::Union(alternatives)) => Some(alternatives@),
            Some(ResolvedType::Nominal(declaration)) => match self.definition_at(declaration) {
                Some(TypeDefinitionKind::Union { alternatives, .. }) => Some(alternatives@),
                _ => None,
            },
            _ => None,
        }
    }

    /// Whether a union type has an alternative whose payload is a type.
    pub open spec fn union_has(self, ty: TypeId, alternative: AlternativeView) -> bool {
        (self.union_alternatives(ty) matches Some(alternatives) && lists(alternatives, alternative))
            && self.analysis.types.has(payload_of(alternative))
    }

    /// The type that an expression has before it is put into a union.
    pub open spec fn value_state(self, expression: Span) -> Option<TypeState> {
        match injection_of(self.analysis, expression) {
            Some((_, alternative)) => Some(TypeState::Resolved(payload_of(alternative))),
            None => state_of(self.analysis, expression),
        }
    }

    /// Whether a settled field of the given storage and type stands at a position of a struct.
    pub open spec fn struct_field(
        self,
        declaration: TypeDeclarationId,
        field: usize,
        storage: MemberStorage,
        state: TypeState,
    ) -> bool {
        self.definition_at(declaration) matches Some(TypeDefinitionKind::Struct(fields)) && field < fields@.len()
            && fields@[field as int].storage == storage && fields@[field as int].ty == state
    }

    /// Whether an expression is of a nominal type.
    pub open spec fn of_nominal(self, expression: Span, declaration: TypeDeclarationId) -> bool {
        state_of(self.analysis, expression) matches Some(TypeState::Resolved(ty)) && self.type_at(ty) matches Some(
            ResolvedType::Nominal(actual),
        ) && actual == declaration
    }

    /// Whether a projection agrees with the types of what it is applied to and of what it gives.
    pub open spec fn projection_agrees(self, expression: &Expression, kind: ProjectionKind) -> bool {
        let result = self.value_state(expression.span);
        match (&expression.kind, kind) {
            (ExpressionKind::Index { value, index }, ProjectionKind::List { element }) => {
                &&& result == Some(TypeState::Resolved(element))
                &&& state_of(self.analysis, value.span) matches Some(TypeState::Resolved(ty)) && self.type_at(
                    ty,
                ) matches Some(ResolvedType::List(actual)) && actual == element
                &&& state_of(self.analysis, index.span) == Some(TypeState::Resolved(primitive_type(PrimitiveType::Int)))
            },
            (ExpressionKind::Index { value, index }, ProjectionKind::Mapping { key, value: item }) => {
                &&& result == Some(TypeState::Resolved(item))
                &&& state_of(self.analysis, value.span) matches Some(TypeState::Resolved(ty)) && self.type_at(
                    ty,
                ) matches Some(ResolvedType::Mapping { key: actual_key, value: actual_value }) && actual_key == key
                    && actual_value == item
                &&& state_of(self.analysis, index.span) == Some(TypeState::Resolved(key))
            },
            (ExpressionKind::Index { value, index }, ProjectionKind::String { result: character }) => {
                &&& result == Some(TypeState::Resolved(character))
                &&& character == primitive_type(PrimitiveType::Char)
                &&& state_of(self.analysis, value.span) == Some(TypeState::Resolved(primitive_type(PrimitiveType::Str)))
                &&& state_of(self.analysis, index.span) == Some(TypeState::Resolved(primitive_type(PrimitiveType::Int)))
            },
            (
                ExpressionKind::Member { value, .. },
                ProjectionKind::Struct { declaration, field, storage, result: member_type },
            ) => {
                &&& result == Some(TypeState::Resolved(member_type))
                &&& self.of_nominal(value.span, declaration)
                &&& self.struct_field(declaration, field, storage, TypeState::Resolved(member_type))
            },
            (
                ExpressionKind::Member { value, .. },
                ProjectionKind::Tuple { declaration, position, result: member_type },
            ) => {
                &&& result == Some(TypeState::Resolved(member_type))
                &&& self.of_nominal(value.span, declaration)
                &&& self.definition_at(declaration) matches Some(TypeDefinitionKind::Tuple(fields)) && position
                    < fields@.len() && fields@[position as int].ty == TypeState::Resolved(member_type)
            },
            _ => false,
        }
    }

    /// Whether a tuple has a member with the given node, position and type.
    pub open spec fn tuple_member(
        self,
        declaration: TypeDeclarationId,
        member: Span,
        position: usize,
        state: TypeState,
    ) -> bool {
        self.definition_at(declaration) matches Some(TypeDefinitionKind::Tuple(members)) && exists|i: int|
            0 <= i < members@.len() && #[trigger] members@[i] == (TupleMember { node: member, position, ty: state })
    }

    /// Whether a step of an assignment path agrees with its target and with the definitions.
    pub open spec fn step_agrees(self, step: AccessPathStep, target: &AssignmentTarget) -> bool {
        match step {
            AccessPathStep::StructMember { suffix, declaration, member, field, storage, state } => {
                &&& has_suffix(target, suffix)
                &&& self.definition_at(declaration) matches Some(TypeDefinitionKind::Struct(members)) && field
                    < members@.len() && members@[field as int].node == member && members@[field as int].storage
                    == storage && members@[field as int].ty == state
                &&& self.known_state(state)
            },
            AccessPathStep::TupleMember { suffix, declaration, member, position, state } => {
                &&& has_suffix(target, suffix)
                &&& self.tuple_member(declaration, member, position, state)
                &&& self.known_state(state)
            },
            AccessPathStep::ListIndex { suffix, element, state } => {
                &&& has_suffix(target, suffix)
                &&& self.analysis.types.has(element)
                &&& state == TypeState::Resolved(element)
            },
            AccessPathStep::MapIndex { suffix, key, value, state } => {
                &&& has_suffix(target, suffix)
                &&& self.analysis.types.has(key)
                &&& self.analysis.types.has(value)
                &&& state == TypeState::Resolved(value)
            },
        }
    }

    pub open spec fn type_annotation(self, index: int) -> Verdict {
        let annotation = self.analysis.type_annotations@[index];
        unless(
            self.has(NodeId::Type(annotation.node)) && self.known_state(annotation.state),
            "type annotation is invalid or has a foreign AST subject",
        )
    }

    pub open spec fn expression_annotation(self, index: int) -> Verdict {
        let annotation = self.analysis.expression_annotations@[index];
        unless(
            self.has(NodeId::Expression(annotation.node)) && self.known_state(annotation.state),
            "expression annotation is invalid or has a foreign AST subject",
        )
    }

    pub open spec fn assignment_annotation(self, index: int) -> Verdict {
        let annotation = self.analysis.assignment_targets@[index];
        unless(
            target_from(self.visits, annotation.node, 0) matches Some(target) && self.known_state(annotation.state) && (
            annotation.root matches Some(root) ==> root.0 < self.analysis.bindings@.len()) && (forall|i: int|
                0 <= i < annotation.steps@.len() ==> self.step_agrees(#[trigger] annotation.steps@[i], target)),
            "assignment annotation is invalid or has a foreign AST subject",
        )
    }

    pub open spec fn annotated_type(self, index: int) -> Verdict {
        match self.visits[index].node {
            Node::Type(ty) => match latest(self.analysis.type_annotations@, ty.span) {
                None => Err("type node has no final annotation"),
                Some(i) => unless(
                    self.settled(self.analysis.type_annotations@[i].state),
                    "type node has a stale or unresolved final annotation",
                ),
            },
            _ => Ok(()),
        }
    }

    pub open spec fn annotated_expression(self, index: int) -> Verdict {
        match expression_of(self.visits[index].node) {
            Some(expression) => if self.callee_syntax(expression.span) {
                Ok(())
            } else {
                match state_of(self.analysis, expression.span) {
                    None => Err("expression has no final annotation"),
                    Some(state) => unless(
                        self.final_state(state),
                        "expression has a stale or unresolved final annotation",
                    ),
                }
            },
            None => Ok(()),
        }
    }

    pub open spec fn annotated_literal(self, index: int) -> Verdict {
        match expression_of(self.visits[index].node) {
            Some(expression) => unless(
                is_literal(expression.kind) ==> facts_of(self.analysis.literals@, expression.span) == 1,
                "literal annotation coverage is missing or duplicated",
            ),
            None => Ok(()),
        }
    }

    pub open spec fn literal_fact(self, index: int) -> Verdict {
        unless(
            self.has_literal(self.analysis.literals@[index].node),
            "literal annotation has a foreign AST subject",
        )
    }

    /// Whether the one conversion fact of an expression agrees with the types around it.
    pub open spec fn conversion_agrees(
        self,
        expression: &Expression,
        destination: PrimitiveType,
        operand: Span,
    ) -> bool {
        latest(self.analysis.numeric_conversions@, expression.span) matches Some(i) && {
            let record = self.analysis.numeric_conversions@[i];
            &&& record.destination == primitive_type(destination)
            &&& state_of(self.analysis, operand) == Some(TypeState::Resolved(record.source))
            &&& self.value_state(expression.span) == Some(TypeState::Resolved(record.destination))
            &&& match (self.type_at(record.source), self.type_at(record.destination)) {
                (
                    Some(ResolvedType::Primitive(PrimitiveType::Int)),
                    Some(ResolvedType::Primitive(PrimitiveType::Float)),
                ) => true,
                (
                    Some(ResolvedType::Primitive(PrimitiveType::Float)),
                    Some(ResolvedType::Primitive(PrimitiveType::Int)),
                ) => true,
                _ => false,
            }
        }
    }

    pub open spec fn converted(self, expression: &Expression) -> Verdict {
        match &expression.kind {
            ExpressionKind::Conversion { destination, operand } => {
                let expected = state_of(self.analysis, expression.span) matches Some(TypeState::Resolved(_));
                both(
                    unless(
                        facts_of(self.analysis.numeric_conversions@, expression.span) == (if expected {
                            1nat
                        } else {
                            0nat
                        }),
                        "numeric conversion coverage is missing or duplicated",
                    ),
                    unless(
                        expected ==> self.conversion_agrees(expression, *destination, operand.span),
                        "numeric conversion resolution is contradictory",
                    ),
                )
            },
            _ => Ok(()),
        }
    }

    /// Whether an expression takes a value out of another.
    pub open spec fn projects(self, expression: &Expression) -> bool {
        (expression.kind is Index || expression.kind is Member) && !self.callee_syntax(expression.span) && (state_of(
            self.analysis,
            expression.span,
        ) matches Some(TypeState::Resolved(_)))
    }

    pub open spec fn resolved_expression(self, index: int) -> Verdict {
        match expression_of(self.visits[index].node) {
            Some(expression) => both(
                self.converted(expression),
                unless(
                    facts_of(self.analysis.projections@, expression.span) == (if self.projects(expression) {
                        1nat
                    } else {
                        0nat
                    }),
                    "value projection coverage is missing or duplicated",
                ),
            ),
            None => Ok(()),
        }
    }

    pub open spec fn conversion_fact(self, index: int) -> Verdict {
        unless(
            self.has_conversion(self.analysis.numeric_conversions@[index].node),
            "numeric conversion resolution has a foreign AST subject",
        )
    }

    pub open spec fn projection_fact(self, index: int) -> Verdict {
        let projection = self.analysis.projections@[index];
        unless(
            expression_from(self.visits, projection.node, 0) matches Some(expression) && !self.callee_syntax(
                projection.node,
            ) && self.projection_agrees(expression, projection.kind),
            "value projection resolution is contradictory or cross-linked",
        )
    }

    /// A call target that names nothing out of range.
    pub open spec fn target_known(self, target: CallTarget) -> bool {
        match target {
            CallTarget::Callable(CallableId::Function(id)) => id.0 < self.analysis.function_signatures@.len(),
            CallTarget::Callable(CallableId::Constructor(id)) => id.0 < self.analysis.type_definitions@.len(),
            CallTarget::QualifiedConstructor(id) => id.0 < self.analysis.type_definitions@.len(),
            CallTarget::Callable(CallableId::Intrinsic(_)) => true,
            CallTarget::Builtin(_) => true,
            CallTarget::ErrorConstructor => true,
            _ => false,
        }
    }

    pub open spec fn resolved_call(self, index: int) -> Verdict {
        match expression_of(self.visits[index].node) {
            Some(expression) => if expression.kind is Call {
                both(
                    unless(
                        facts_of(self.analysis.calls@, expression.span) == 1,
                        "call resolution coverage is missing or duplicated",
                    ),
                    match target_of(self.analysis, expression.span) {
                        Some(target) => both(
                            unless(
                                !(target is Unknown || target is Expression || target is Binding || target is Ambiguous
                                    || target is AmbiguousErrorConstructor),
                                "call retained an unresolved or non-callable target",
                            ),
                            both(
                                unless(self.target_known(target), "call target contains an invalid stable identity"),
                                unless(
                                    facts_of(self.analysis.constructors@, expression.span) == (if constructs(target) {
                                        1nat
                                    } else {
                                        0nat
                                    }),
                                    "constructor resolution coverage is missing or duplicated",
                                ),
                            ),
                        ),
                        None => Ok(()),
                    },
                )
            } else {
                Ok(())
            },
            None => Ok(()),
        }
    }

    pub open spec fn call_fact(self, index: int) -> Verdict {
        let call = self.analysis.calls@[index];
        unless(
            self.has_call(call.node) && self.has(NodeId::Expression(call.callee)),
            "call resolution has a foreign AST subject",
        )
    }

    pub open spec fn resolved_name(self, index: int) -> Verdict {
        match uses(self.visits[index].node) {
            Some(identifier) => unless(
                facts_of(self.analysis.name_uses@, identifier) == 1,
                "name-use resolution coverage is missing or duplicated",
            ),
            None => Ok(()),
        }
    }

    /// A name resolution that is settled and names nothing out of range.
    pub open spec fn resolution_known(self, resolution: NameResolution) -> bool {
        match resolution {
            NameResolution::Binding(id) => id.0 < self.analysis.bindings@.len(),
            NameResolution::Callable(CallableId::Function(id)) => id.0 < self.analysis.function_signatures@.len(),
            NameResolution::Callable(CallableId::Constructor(id)) => id.0 < self.analysis.type_definitions@.len(),
            NameResolution::Callable(CallableId::Intrinsic(_)) => true,
            NameResolution::ErrorConstructor => true,
            _ => false,
        }
    }

    pub open spec fn name_fact(self, index: int) -> Verdict {
        let name = self.analysis.name_uses@[index];
        unless(
            self.has_use(name.node) && self.resolution_known(name.resolution),
            "name-use resolution is unresolved or cross-linked",
        )
    }

    pub open spec fn annotated_target(self, index: int) -> Verdict {
        match assigns(self.visits[index].node) {
            Some(target) => match latest(self.analysis.assignment_targets@, target.span) {
                None => Err("assignment target has no final annotation"),
                Some(i) => {
                    let annotation = self.analysis.assignment_targets@[i];
                    unless(
                        annotation.root is Some && annotation.steps@.len() == target.suffixes@.len() && self.settled(
                            annotation.state,
                        ),
                        "executable assignment target has an incomplete typed path",
                    )
                },
            },
            None => Ok(()),
        }
    }

    /// Whether a constructor agrees with the definition that it makes a value of.
    pub open spec fn constructor_agrees(self, kind: ConstructorKind) -> bool {
        match kind {
            ConstructorKind::Struct { declaration, argument_members } => self.definition_at(declaration) matches Some(
                TypeDefinitionKind::Struct(members),
            ) && argument_members@.len() == members@.len() && (forall|i: int|
                0 <= i < argument_members@.len() ==> #[trigger] argument_members@[i] < members@.len()),
            ConstructorKind::Tuple(declaration) => self.definition_at(declaration) matches Some(
                TypeDefinitionKind::Tuple(_),
            ),
            ConstructorKind::Union { declaration, alternative } => self.definition_at(declaration) matches Some(
                TypeDefinitionKind::Union { alternatives, .. },
            ) && lists(alternatives@, alternative@),
            ConstructorKind::TaggedUnion { declaration, alternative } => self.definition_at(declaration) matches Some(
                TypeDefinitionKind::Union { alternatives, .. },
            ) && lists(alternatives@, alternative@),
            ConstructorKind::Error { union_type, alternative } => self.union_has(union_type, alternative@),
        }
    }

    pub open spec fn constructor_fact(self, index: int) -> Verdict {
        let constructor = self.analysis.constructors@[index];
        unless(
            self.has(NodeId::Expression(constructor.node)) && self.constructor_agrees(constructor.kind),
            "constructor resolution is invalid or cross-linked",
        )
    }

    pub open spec fn injection_subject(self, index: int) -> Verdict {
        let subjects = self.analysis.union_injection_subjects@;
        let subject = subjects[index];
        unless(
            injections_before(subjects, subject, index) == 0 && self.has(NodeId::Expression(subject.node))
                && self.union_has(subject.union_type, subject.alternative@) && injections_before(
                self.analysis.union_injections@,
                subject,
                self.analysis.union_injections@.len() as int,
            ) == 1,
            "union injection coverage is invalid or incomplete",
        )
    }

    pub open spec fn injection_fact(self, index: int) -> Verdict {
        let injections = self.analysis.union_injections@;
        let injection = injections[index];
        unless(
            self.has(NodeId::Expression(injection.node)) && self.union_has(
                injection.union_type,
                injection.alternative@,
            ) && !injected_before(injections, index) && injections_before(
                self.analysis.union_injection_subjects@,
                injection,
                self.analysis.union_injection_subjects@.len() as int,
            ) == 1,
            "union injection is invalid, duplicated, or cross-linked",
        )
    }

    /// The type annotations from one on.
    pub open spec fn type_annotations(self, from: int) -> Verdict
        decreases self.analysis.type_annotations@.len() - from,
    {
        if from < 0 || from >= self.analysis.type_annotations@.len() {
            Ok(())
        } else {
            both(self.type_annotation(from), self.type_annotations(from + 1))
        }
    }

    /// The expression annotations from one on.
    pub open spec fn expression_annotations(self, from: int) -> Verdict
        decreases self.analysis.expression_annotations@.len() - from,
    {
        if from < 0 || from >= self.analysis.expression_annotations@.len() {
            Ok(())
        } else {
            both(self.expression_annotation(from), self.expression_annotations(from + 1))
        }
    }

    /// The annotations of assignment targets from one on.
    pub open spec fn assignment_annotations(self, from: int) -> Verdict
        decreases self.analysis.assignment_targets@.len() - from,
    {
        if from < 0 || from >= self.analysis.assignment_targets@.len() {
            Ok(())
        } else {
            both(self.assignment_annotation(from), self.assignment_annotations(from + 1))
        }
    }

    /// The types of the program from one node on.
    pub open spec fn annotated_types(self, from: int) -> Verdict
        decreases self.visits.len() - from,
    {
        if from < 0 || from >= self.visits.len() {
            Ok(())
        } else {
            both(self.annotated_type(from), self.annotated_types(from + 1))
        }
    }

    /// The expressions of the program from one node on.
    pub open spec fn annotated_expressions(self, from: int) -> Verdict
        decreases self.visits.len() - from,
    {
        if from < 0 || from >= self.visits.len() {
            Ok(())
        } else {
            both(self.annotated_expression(from), self.annotated_expressions(from + 1))
        }
    }

    /// The literals of the program from one node on.
    pub open spec fn annotated_literals(self, from: int) -> Verdict
        decreases self.visits.len() - from,
    {
        if from < 0 || from >= self.visits.len() {
            Ok(())
        } else {
            both(self.annotated_literal(from), self.annotated_literals(from + 1))
        }
    }

    /// The literal facts from one on.
    pub open spec fn literal_facts(self, from: int) -> Verdict
        decreases self.analysis.literals@.len() - from,
    {
        if from < 0 || from >= self.analysis.literals@.len() {
            Ok(())
        } else {
            both(self.literal_fact(from), self.literal_facts(from + 1))
        }
    }

    /// The conversions and projections of the program from one node on.
    pub open spec fn resolved_expressions(self, from: int) -> Verdict
        decreases self.visits.len() - from,
    {
        if from < 0 || from >= self.visits.len() {
            Ok(())
        } else {
            both(self.resolved_expression(from), self.resolved_expressions(from + 1))
        }
    }

    /// The conversion facts from one on.
    pub open spec fn conversion_facts(self, from: int) -> Verdict
        decreases self.analysis.numeric_conversions@.len() - from,
    {
        if from < 0 || from >= self.analysis.numeric_conversions@.len() {
            Ok(())
        } else {
            both(self.conversion_fact(from), self.conversion_facts(from + 1))
        }
    }

    /// The projection facts from one on.
    pub open spec fn projection_facts(self, from: int) -> Verdict
        decreases self.analysis.projections@.len() - from,
    {
        if from < 0 || from >= self.analysis.projections@.len() {
            Ok(())
        } else {
            both(self.projection_fact(from), self.projection_facts(from + 1))
        }
    }

    /// The calls of the program from one node on.
    pub open spec fn resolved_calls(self, from: int) -> Verdict
        decreases self.visits.len() - from,
    {
        if from < 0 || from >= self.visits.len() {
            Ok(())
        } else {
            both(self.resolved_call(from), self.resolved_calls(from + 1))
        }
    }

    /// The call facts from one on.
    pub open spec fn call_facts(self, from: int) -> Verdict
        decreases self.analysis.calls@.len() - from,
    {
        if from < 0 || from >= self.analysis.calls@.len() {
            Ok(())
        } else {
            both(self.call_fact(from), self.call_facts(from + 1))
        }
    }

    /// The uses of names in the program from one node on.
    pub open spec fn resolved_names(self, from: int) -> Verdict
        decreases self.visits.len() - from,
    {
        if from < 0 || from >= self.visits.len() {
            Ok(())
        } else {
            both(self.resolved_name(from), self.resolved_names(from + 1))
        }
    }

    /// The facts about names from one on.
    pub open spec fn name_facts(self, from: int) -> Verdict
        decreases self.analysis.name_uses@.len() - from,
    {
        if from < 0 || from >= self.analysis.name_uses@.len() {
            Ok(())
        } else {
            both(self.name_fact(from), self.name_facts(from + 1))
        }
    }

    /// The assignments of the program from one node on.
    pub open spec fn annotated_targets(self, from: int) -> Verdict
        decreases self.visits.len() - from,
    {
        if from < 0 || from >= self.visits.len() {
            Ok(())
        } else {
            both(self.annotated_target(from), self.annotated_targets(from + 1))
        }
    }

    /// The constructor facts from one on.
    pub open spec fn constructor_facts(self, from: int) -> Verdict
        decreases self.analysis.constructors@.len() - from,
    {
        if from < 0 || from >= self.analysis.constructors@.len() {
            Ok(())
        } else {
            both(self.constructor_fact(from), self.constructor_facts(from + 1))
        }
    }

    /// The expected injections from one on.
    pub open spec fn injection_subjects(self, from: int) -> Verdict
        decreases self.analysis.union_injection_subjects@.len() - from,
    {
        if from < 0 || from >= self.analysis.union_injection_subjects@.len() {
            Ok(())
        } else {
            both(self.injection_subject(from), self.injection_subjects(from + 1))
        }
    }

    /// The injections from one on.
    pub open spec fn injection_facts(self, from: int) -> Verdict
        decreases self.analysis.union_injections@.len() - from,
    {
        if from < 0 || from >= self.analysis.union_injections@.len() {
            Ok(())
        } else {
            both(self.injection_fact(from), self.injection_facts(from + 1))
        }
    }

    /// Whether the annotations are about the program and name nothing out of range.
    pub open spec fn annotation_tables(self) -> Verdict {
        both(self.type_annotations(0), both(self.expression_annotations(0), self.assignment_annotations(0)))
    }

    /// Whether types, expressions, literals, conversions and projections carry their facts.
    pub open spec fn value_tables(self) -> Verdict {
        both(
            self.annotated_types(0),
            both(
                self.annotated_expressions(0),
                both(
                    self.annotated_literals(0),
                    both(
                        self.literal_facts(0),
                        both(self.resolved_expressions(0), both(self.conversion_facts(0), self.projection_facts(0))),
                    ),
                ),
            ),
        )
    }

    /// Whether calls, names, assignments and constructors carry their facts.
    pub open spec fn name_tables(self) -> Verdict {
        both(
            self.resolved_calls(0),
            both(
                self.call_facts(0),
                both(
                    self.resolved_names(0),
                    both(self.name_facts(0), both(self.annotated_targets(0), self.constructor_facts(0))),
                ),
            ),
        )
    }

    /// Whether the expected injections and the injections match.
    pub open spec fn injection_tables(self) -> Verdict {
        both(self.injection_subjects(0), self.injection_facts(0))
    }

    /// Whether the facts of name and type analysis cover the program and agree with it.
    pub open spec fn annotations(self) -> Verdict {
        both(
            self.annotation_tables(),
            both(self.value_tables(), both(self.name_tables(), self.injection_tables())),
        )
    }

    /// A binding, if there is one, is in range.
    pub open spec fn binding_known(self, binding: Option<BindingId>) -> bool {
        binding matches Some(id) ==> id.0 < self.analysis.bindings@.len()
    }

    pub open spec fn tested(self, index: int) -> Verdict {
        match expression_of(self.visits[index].node) {
            Some(expression) => unless(
                expression.kind is Is ==> facts_of(self.semantic.union_tests@, expression.span) == 1,
                "union test resolution coverage is missing or duplicated",
            ),
            None => Ok(()),
        }
    }

    pub open spec fn test_fact(self, index: int) -> Verdict {
        let test = self.semantic.union_tests@[index];
        unless(
            self.has(NodeId::Expression(test.expression)) && self.union_has(test.operand_union, test.alternative@)
                && payload_of(test.alternative@) == test.payload && self.binding_known(test.binding),
            "union test resolution is contradictory or cross-linked",
        )
    }

    pub open spec fn switched(self, index: int) -> Verdict {
        match statement_of(self.visits[index].node) {
            Some(statement) => unless(
                statement.kind is Switch ==> facts_of(self.semantic.switches@, statement.span) == 1,
                "switch resolution coverage is missing or duplicated",
            ),
            None => Ok(()),
        }
    }

    /// Whether an arm of a resolved `switch` agrees with its syntax and with the union.
    pub open spec fn arm_agrees(self, union_type: TypeId, arms: Seq<SwitchArm>, arm: SwitchArmResolution) -> bool {
        has_arm(arms, arm.arm) && self.union_has(union_type, arm.alternative@) && payload_of(arm.alternative@)
            == arm.payload
    }

    /// Whether the arms of a resolved `switch` cover what they say they cover.
    pub open spec fn coverage(self, switch: SwitchResolution) -> Verdict {
        both(
            unless(
                (forall|i: int|
                    0 <= i < switch.arms@.len() ==> lists(switch.covered@, (#[trigger] switch.arms@[i]).alternative@))
                    && switch.covered@.len() == switch.arms@.len(),
                "switch covered set disagrees with its unique arms",
            ),
            match self.union_alternatives(switch.operand_union) {
                None => Err("switch operand identity is not a union"),
                Some(direct) => unless(
                    all_listed(switch.covered@, direct) && all_different(switch.covered@) && (switch.else_body is None
                        ==> all_listed(direct, switch.covered@)),
                    "switch coverage contradicts its direct alternatives",
                ),
            },
        )
    }

    pub open spec fn switch_fact(self, index: int) -> Verdict {
        let switch = self.semantic.switches@[index];
        match statement_from(self.visits, switch.statement, 0) {
            Some(statement) => both(
                unless(
                    switch.exhaustive && self.binding_known(switch.binding),
                    "switch resolution is incomplete or cross-linked",
                ),
                match &statement.kind {
                    StatementKind::Switch { arms, else_body, .. } => both(
                        unless(
                            switch.arms@.len() == arms@.len() && switch.else_body == body_span(*else_body),
                            "switch arm or else coverage is incomplete",
                        ),
                        both(
                            unless(
                                forall|i: int|
                                    0 <= i < switch.arms@.len() ==> self.arm_agrees(
                                        switch.operand_union,
                                        arms@,
                                        #[trigger] switch.arms@[i],
                                    ),
                                "switch alternative resolution is contradictory",
                            ),
                            self.coverage(switch),
                        ),
                    ),
                    _ => Err("switch resolution refers to a non-switch statement"),
                },
            ),
            None => Err("switch resolution is incomplete or cross-linked"),
        }
    }

    pub open spec fn tried(self, index: int) -> Verdict {
        match expression_of(self.visits[index].node) {
            Some(expression) => match &expression.kind {
                ExpressionKind::Try { value, .. } => unless(
                    facts_of(self.semantic.tries@, expression.span) == (if state_of(self.analysis, value.span) == Some(
                        TypeState::Never,
                    ) {
                        0nat
                    } else {
                        1nat
                    }),
                    "postfix try resolution coverage is missing or duplicated",
                ),
                _ => Ok(()),
            },
            None => Ok(()),
        }
    }

    /// The function that a node stands in.
    pub open spec fn enclosing(self, id: NodeId) -> Option<FunctionId> {
        match function_from(self.visits, id, 0) {
            Some(function) => if function < self.analysis.function_signatures@.len() {
                Some(self.analysis.function_signatures@[function as int].id)
            } else {
                None
            },
            None => None,
        }
    }

    /// Whether a type is what is left of a union without its errors.
    pub open spec fn success_agrees(self, success: TypeId, alternatives: Seq<UnionAlternative>) -> bool {
        let successes = successes_before(alternatives, alternatives.len() as int);
        if successes.len() == 1 {
            success == payload_of(successes[0])
        } else {
            self.type_at(success) matches Some(ResolvedType::Union(actual)) && alternative_views(actual@) == successes
        }
    }

    /// Whether the function is the one that the program starts in.
    pub open spec fn is_entry(self, function: FunctionId) -> bool {
        self.semantic.entry_point matches Some(entry) && entry.function == function
    }

    pub open spec fn action_agrees(self, resolution: TryResolution, function: FunctionId) -> Verdict {
        match resolution.action {
            TryAction::Panic { function: acting } => unless(
                acting == function && self.is_entry(function),
                "postfix try panic action has the wrong function",
            ),
            TryAction::Propagate { function: acting, destination_union, destination_error } => unless(
                acting == function && !self.is_entry(function) && function.0 < self.analysis.function_signatures@.len()
                    && self.analysis.function_signatures@[function.0 as int].result == TypeState::Resolved(
                    destination_union,
                ) && self.union_has(destination_union, destination_error@) && payload_of(destination_error@)
                    == payload_of(resolution.source_error@),
                "postfix try propagation action is contradictory",
            ),
        }
    }

    pub open spec fn try_flow(self, resolution: TryResolution) -> Verdict {
        match record_from(self.semantic.flow.summaries@, FlowSubject::Expression(resolution.expression), 0) {
            None => Err("postfix try has no flow summary"),
            Some(i) => {
                let flow = self.semantic.flow.summaries@[i].summary;
                unless(
                    (match resolution.action {
                        TryAction::Propagate { .. } => flow.flags.returns,
                        TryAction::Panic { .. } => flow.flags.diverges,
                    }) && flow.fallthrough != FallthroughKind::Never,
                    "postfix try flow omits its success or action path",
                )
            },
        }
    }

    pub open spec fn try_fact(self, index: int) -> Verdict {
        let resolution = self.semantic.tries@[index];
        both(
            unless(
                self.has(NodeId::Expression(resolution.expression)) && self.union_has(
                    resolution.operand_union,
                    resolution.source_error@,
                ) && resolution.source_error is Error && self.analysis.types.has(resolution.success) && state_of(
                    self.analysis,
                    resolution.expression,
                ) == Some(TypeState::Resolved(resolution.success)),
                "postfix try resolution is contradictory or cross-linked",
            ),
            match self.union_alternatives(resolution.operand_union) {
                None => Ok(()),
                Some(alternatives) => both(
                    unless(
                        errors_before(alternatives, alternatives.len() as int) == 1,
                        "postfix try operand does not have one direct Error alternative",
                    ),
                    both(
                        unless(
                            self.success_agrees(resolution.success, alternatives),
                            "postfix try success type contradicts its operand alternatives",
                        ),
                        match self.enclosing(NodeId::Expression(resolution.expression)) {
                            None => Err("postfix try has no enclosing function"),
                            Some(function) => both(
                                self.action_agrees(resolution, function),
                                self.try_flow(resolution),
                            ),
                        },
                    ),
                ),
            },
        )
    }

    /// Whether the function that the program starts in is its `main`.
    pub open spec fn entry(self) -> Verdict {
        match self.semantic.entry_point {
            None => Err("diagnostic-free result has no entry point"),
            Some(entry) => {
                let id = entry.function;
                if id.0 >= self.analysis.function_signatures@.len() {
                    Err("entry point has an invalid function identity")
                } else {
                    let signature = self.analysis.function_signatures@[id.0 as int];
                    unless(
                        signature.id == id && function_named(self.analysis.function_names@, "main"@, 0) == Some(id)
                            && starts(self.analysis, signature),
                        "entry point disagrees with the resolved main declaration",
                    )
                }
            },
        }
    }

    /// The union tests of the program from one node on.
    pub open spec fn tests(self, from: int) -> Verdict
        decreases self.visits.len() - from,
    {
        if from < 0 || from >= self.visits.len() {
            Ok(())
        } else {
            both(self.tested(from), self.tests(from + 1))
        }
    }

    /// The union test facts from one on.
    pub open spec fn test_facts(self, from: int) -> Verdict
        decreases self.semantic.union_tests@.len() - from,
    {
        if from < 0 || from >= self.semantic.union_tests@.len() {
            Ok(())
        } else {
            both(self.test_fact(from), self.test_facts(from + 1))
        }
    }

    /// The `switch` statements of the program from one node on.
    pub open spec fn switches(self, from: int) -> Verdict
        decreases self.visits.len() - from,
    {
        if from < 0 || from >= self.visits.len() {
            Ok(())
        } else {
            both(self.switched(from), self.switches(from + 1))
        }
    }

    /// The facts about `switch` statements from one on.
    pub open spec fn switch_facts(self, from: int) -> Verdict
        decreases self.semantic.switches@.len() - from,
    {
        if from < 0 || from >= self.semantic.switches@.len() {
            Ok(())
        } else {
            both(self.switch_fact(from), self.switch_facts(from + 1))
        }
    }

    /// The postfix `?` expressions of the program from one node on.
    pub open spec fn attempts(self, from: int) -> Verdict
        decreases self.visits.len() - from,
    {
        if from < 0 || from >= self.visits.len() {
            Ok(())
        } else {
            both(self.tried(from), self.attempts(from + 1))
        }
    }

    /// The facts about postfix `?` from one on.
    pub open spec fn try_facts(self, from: int) -> Verdict
        decreases self.semantic.tries@.len() - from,
    {
        if from < 0 || from >= self.semantic.tries@.len() {
            Ok(())
        } else {
            both(self.try_fact(from), self.try_facts(from + 1))
        }
    }

    /// Whether union tests, `switch` statements and postfix `?` carry their facts.
    pub open spec fn contextual_records(self) -> Verdict {
        both(
            self.tests(0),
            both(
                self.test_facts(0),
                both(self.switches(0), both(self.switch_facts(0), both(self.attempts(0), self.try_facts(0)))),
            ),
        )
    }

    /// Whether control flows through a part of the program.
    pub open spec fn has_flow(self, subject: FlowSubject) -> bool {
        exists|i: int| 0 <= i < self.visits.len() && #[trigger] flows(self.visits[i], subject)
    }

    /// Whether a `return` belongs to the program.
    pub open spec fn has_return(self, span: Span) -> bool {
        exists|i: int| 0 <= i < self.visits.len() && #[trigger] returned(self.visits[i], span)
    }

    pub open spec fn assignment_asks(self, index: int) -> Verdict {
        match assigns(self.visits[index].node) {
            Some(target) => unless(
                subjects_before(
                    self.semantic.mutation_subjects@,
                    MutabilitySubject::Assignment(target.span),
                    self.semantic.mutation_subjects@.len() as int,
                ) == 1,
                "assignment mutation coverage is missing or duplicated",
            ),
            None => Ok(()),
        }
    }

    /// Whether a subject that asks for a right belongs to the program.
    pub open spec fn subject_belongs(self, subject: MutabilitySubject) -> bool {
        match subject {
            MutabilitySubject::Assignment(target) => self.has_assignment(target),
            MutabilitySubject::Receiver { call, receiver } => self.has(NodeId::Expression(call)) && self.has(
                NodeId::Expression(receiver),
            ),
            MutabilitySubject::Argument { call, argument } => expression_from(self.visits, call, 0) matches Some(
                expression,
            ) && has_argument(expression, argument),
        }
    }

    pub open spec fn mutation_subject(self, index: int) -> Verdict {
        let subjects = self.semantic.mutation_subjects@;
        unless(
            subjects_before(subjects, subjects[index], index) == 0 && self.subject_belongs(subjects[index])
                && rights_before(
                self.semantic.mutability@,
                subjects[index],
                self.semantic.mutability@.len() as int,
            ) == 1,
            "mutation coverage is invalid or lacks one authorization",
        )
    }

    /// Whether a step to a place agrees with the program and with the definitions.
    pub open spec fn place_agrees(self, step: PlaceStep) -> bool {
        match step {
            PlaceStep::StructMember { node, declaration, member, storage, state } => {
                &&& self.has(NodeId::Expression(node))
                &&& self.struct_member(declaration, member, storage, state)
                &&& state_of(self.analysis, node) == Some(state)
                &&& self.final_state(state)
            },
            PlaceStep::TupleMember { node, declaration, member, position, state } => {
                &&& self.has(NodeId::Expression(node))
                &&& self.tuple_member(declaration, member, position, state)
                &&& state_of(self.analysis, node) == Some(state)
                &&& self.final_state(state)
            },
            PlaceStep::ListIndex { node, element, state } => {
                &&& self.has(NodeId::Expression(node))
                &&& self.analysis.types.has(element)
                &&& state == TypeState::Resolved(element)
                &&& state_of(self.analysis, node) == Some(state)
            },
            PlaceStep::MapIndex { node, key, value, state } => {
                &&& self.has(NodeId::Expression(node))
                &&& self.analysis.types.has(key)
                &&& self.analysis.types.has(value)
                &&& state == TypeState::Resolved(value)
                &&& state_of(self.analysis, node) == Some(state)
            },
        }
    }

    /// Whether a struct has a member with the given node, storage and type.
    pub open spec fn struct_member(
        self,
        declaration: TypeDeclarationId,
        member: Span,
        storage: MemberStorage,
        state: TypeState,
    ) -> bool {
        self.definition_at(declaration) matches Some(TypeDefinitionKind::Struct(members)) && exists|i: int|
            0 <= i < members@.len() && (#[trigger] members@[i]).node == member && members@[i].storage == storage
                && members@[i].ty == state
    }

    /// Whether every step to a place agrees with the program.
    pub open spec fn path_agrees(self, path: Seq<PlaceStep>) -> bool {
        forall|i: int| 0 <= i < path.len() ==> self.place_agrees(#[trigger] path[i])
    }

    pub open spec fn assignment_right(
        self,
        right: MutabilityResolution,
        target: Span,
        path: Seq<AccessPathStep>,
    ) -> Verdict {
        match latest(self.analysis.assignment_targets@, target) {
            None => Err("mutation authorization refers to an unannotated assignment"),
            Some(i) => {
                let annotation = self.analysis.assignment_targets@[i];
                both(
                    unless(
                        annotation.root == Some(right.root) && target_from(self.visits, target, 0) is Some && path
                            == annotation.steps@,
                        "assignment mutation path contradicts name/type analysis",
                    ),
                    match target_from(self.visits, target, 0) {
                        Some(syntax) => match use_of(self.analysis, syntax.root.span) {
                            None => Err("assignment mutation authorization has no root name use"),
                            Some(name) => unless(
                                name.resolution == NameResolution::Binding(right.root) && name.access == right.access,
                                "assignment mutation authorization contradicts root access",
                            ),
                        },
                        None => Ok(()),
                    },
                )
            },
        }
    }

    pub open spec fn receiver_right(
        self,
        right: MutabilityResolution,
        call: Span,
        receiver: Span,
        path: Seq<PlaceStep>,
    ) -> Verdict {
        both(
            unless(
                self.has(NodeId::Expression(call)) && self.has(NodeId::Expression(receiver)),
                "receiver mutation authorization has a foreign AST subject",
            ),
            both(
                unless(
                    target_of(self.analysis, call) matches Some(CallTarget::Builtin(method)) && right.operation
                        == MutabilityOperation::MutateReceiver(method),
                    "receiver mutation authorization contradicts its call target",
                ),
                unless(self.path_agrees(path), "receiver mutation authorization has an invalid typed path"),
            ),
        )
    }

    /// Whether a parameter of a function is a mutable one.
    pub open spec fn mutable_parameter(signature: FunctionSignature, parameter: BindingId) -> bool {
        exists|i: int|
            0 <= i < signature.parameters@.len() && (#[trigger] signature.parameters@[i]).binding == parameter
                && signature.parameters@[i].node.mutable
    }

    pub open spec fn argument_right(
        self,
        right: MutabilityResolution,
        call: Span,
        argument: Span,
        path: Seq<PlaceStep>,
    ) -> Verdict {
        match expression_from(self.visits, call, 0) {
            Some(expression) => if expression.kind is Call {
                both(
                    unless(
                        has_argument(expression, argument) && self.path_agrees(path),
                        "mutable argument authorization is invalid or cross-linked",
                    ),
                    match right.operation {
                        MutabilityOperation::MutableArgument { function, parameter } => if function.0
                            >= self.analysis.function_signatures@.len() {
                            Err("mutable argument authorization has an invalid function")
                        } else {
                            unless(
                                Self::mutable_parameter(
                                    self.analysis.function_signatures@[function.0 as int],
                                    parameter,
                                ),
                                "mutable argument authorization has an invalid parameter",
                            )
                        },
                        _ => Err("mutable argument authorization has the wrong operation"),
                    },
                )
            } else {
                Err("mutable argument authorization refers to a non-call")
            },
            None => Err("mutable argument authorization is invalid or cross-linked"),
        }
    }

    pub open spec fn mutation_right(self, index: int) -> Verdict {
        let right = self.semantic.mutability@[index];
        both(
            unless(
                right.root.0 < self.analysis.bindings@.len() && rights_before(
                    self.semantic.mutability@,
                    right.subject,
                    index,
                ) == 0 && subjects_before(
                    self.semantic.mutation_subjects@,
                    right.subject,
                    self.semantic.mutation_subjects@.len() as int,
                ) == 1,
                "mutation authorization has an invalid root or duplicate subject",
            ),
            both(
                match (right.subject, &right.path) {
                    (MutabilitySubject::Assignment(target), MutabilityPath::Assignment(path)) => self.assignment_right(
                        right,
                        target,
                        path@,
                    ),
                    (MutabilitySubject::Receiver { call, receiver }, MutabilityPath::Expression(path)) => self.receiver_right(
                        right,
                        call,
                        receiver,
                        path@,
                    ),
                    (MutabilitySubject::Argument { call, argument }, MutabilityPath::Expression(path)) => self.argument_right(
                        right,
                        call,
                        argument,
                        path@,
                    ),
                    _ => Err("mutation subject and typed path category disagree"),
                },
                unless(
                    right.operation != MutabilityOperation::DeferredPath,
                    "mutation authorization retained a deferred operation",
                ),
            ),
        )
    }

    pub open spec fn flow_covered(self, index: int) -> Verdict {
        match flow_subject(self.visits[index].node) {
            Some(subject) => unless(
                records_before(
                    self.semantic.flow.summaries@,
                    subject,
                    self.semantic.flow.summaries@.len() as int,
                ) == 1,
                "flow summary coverage is missing or duplicated",
            ),
            None => Ok(()),
        }
    }

    pub open spec fn flow_fact(self, index: int) -> Verdict {
        let record = self.semantic.flow.summaries@[index];
        unless(
            self.has_flow(record.subject) && record.summary.fallthrough != FallthroughKind::SwitchDependent
                && record.summary.switch_dependencies@.len() == 0 && record.summary.flags.fallthrough == (
            record.summary.fallthrough != FallthroughKind::Never),
            "flow summary is unresolved, contradictory, or cross-linked",
        )
    }

    pub open spec fn return_covered(self, index: int) -> Verdict {
        match statement_of(self.visits[index].node) {
            Some(statement) => unless(
                statement.kind is Return ==> facts_of(self.semantic.flow.returns@, statement.span) == 1,
                "explicit return fact is missing or duplicated",
            ),
            None => Ok(()),
        }
    }

    /// Whether putting the unit value into a union agrees with the result of a function.
    pub open spec fn unit_fits(self, function: FunctionId, alternative: AlternativeView) -> bool {
        &&& function.0 < self.analysis.function_signatures@.len()
        &&& payload_of(alternative) == unit_type()
        &&& self.analysis.function_signatures@[function.0 as int].result matches TypeState::Resolved(result)
            && self.union_has(result, alternative)
    }

    pub open spec fn return_fact(self, index: int) -> Verdict {
        let fact = self.semantic.flow.returns@[index];
        both(
            unless(
                self.has_return(fact.statement) && fact.function.0 < self.analysis.function_signatures@.len()
                    && self.enclosing(NodeId::Statement(fact.statement)) == Some(fact.function) && (match fact.value {
                    Some(value) => state_of(self.analysis, value) == Some(fact.value_state),
                    None => fact.value_state == TypeState::Resolved(unit_type()),
                }),
                "explicit return fact is stale or cross-linked",
            ),
            unless(
                fact.unit_injection matches Some(alternative) ==> fact.value is None && self.unit_fits(
                    fact.function,
                    alternative@,
                ),
                "explicit unit return injection is contradictory",
            ),
        )
    }

    pub open spec fn control_covered(self, index: int) -> Verdict {
        match controls(self.visits[index].node) {
            Some(control) => unless(
                facts_of(self.semantic.flow.loop_controls@, control) == 1,
                "loop-control target is missing or duplicated",
            ),
            None => Ok(()),
        }
    }

    pub open spec fn control_fact(self, index: int) -> Verdict {
        let control = self.semantic.flow.loop_controls@[index];
        unless(
            loop_from(self.visits, control.statement, 0) == Some(control.target),
            "loop control does not target its nearest enclosing loop",
        )
    }

    pub open spec fn completion_fact(self, index: int) -> Verdict {
        let completion = self.semantic.flow.completions@[index];
        if completion.function.0 >= self.analysis.function_signatures@.len() {
            Err("function completion has an invalid function identity")
        } else {
            let signature = self.analysis.function_signatures@[completion.function.0 as int];
            both(
                unless(
                    signature.node.body.span == completion.body && facts_of(
                        self.semantic.flow.completions@,
                        completion.body,
                    ) == 1,
                    "function completion is duplicated or cross-linked",
                ),
                unless(
                    match completion.unit_injection {
                        None => signature.result == TypeState::Resolved(unit_type()),
                        Some(alternative) => self.unit_fits(completion.function, alternative@),
                    },
                    "function completion disagrees with its unit result",
                ),
            )
        }
    }

    /// Whether the unit value fits a result type, by itself or in just one way as an alternative.
    pub open spec fn accepts_unit(self, result: TypeId) -> bool {
        result == unit_type() || (self.union_alternatives(result) matches Some(alternatives) && units_before(
            alternatives,
            alternatives.len() as int,
        ) == 1)
    }

    pub open spec fn completion_covered(self, index: int) -> Verdict {
        let signature = self.analysis.function_signatures@[index];
        match record_from(self.semantic.flow.summaries@, FlowSubject::Block(signature.node.body.span), 0) {
            None => Err("function body has no final flow summary"),
            Some(i) => {
                let summary = self.semantic.flow.summaries@[i].summary;
                let needed = signature.node.body.value is None && summary.fallthrough == FallthroughKind::Definite && (
                signature.result matches TypeState::Resolved(result) && self.accepts_unit(result));
                unless(
                    completions_before(
                        self.semantic.flow.completions@,
                        signature.id,
                        self.semantic.flow.completions@.len() as int,
                    ) == (if needed {
                        1nat
                    } else {
                        0nat
                    }),
                    "implicit function completion coverage is incomplete or duplicated",
                )
            },
        }
    }

    /// The assignments of the program from one node on.
    pub open spec fn assignments_ask(self, from: int) -> Verdict
        decreases self.visits.len() - from,
    {
        if from < 0 || from >= self.visits.len() {
            Ok(())
        } else {
            both(self.assignment_asks(from), self.assignments_ask(from + 1))
        }
    }

    /// What asks for the right to change something, from one on.
    pub open spec fn mutation_subjects(self, from: int) -> Verdict
        decreases self.semantic.mutation_subjects@.len() - from,
    {
        if from < 0 || from >= self.semantic.mutation_subjects@.len() {
            Ok(())
        } else {
            both(self.mutation_subject(from), self.mutation_subjects(from + 1))
        }
    }

    /// The rights to change something from one on.
    pub open spec fn mutation_rights(self, from: int) -> Verdict
        decreases self.semantic.mutability@.len() - from,
    {
        if from < 0 || from >= self.semantic.mutability@.len() {
            Ok(())
        } else {
            both(self.mutation_right(from), self.mutation_rights(from + 1))
        }
    }

    /// What control flows through, from one node on.
    pub open spec fn flows_covered(self, from: int) -> Verdict
        decreases self.visits.len() - from,
    {
        if from < 0 || from >= self.visits.len() {
            Ok(())
        } else {
            both(self.flow_covered(from), self.flows_covered(from + 1))
        }
    }

    /// The flow summaries from one on.
    pub open spec fn flow_facts(self, from: int) -> Verdict
        decreases self.semantic.flow.summaries@.len() - from,
    {
        if from < 0 || from >= self.semantic.flow.summaries@.len() {
            Ok(())
        } else {
            both(self.flow_fact(from), self.flow_facts(from + 1))
        }
    }

    /// The `return` statements of the program from one node on.
    pub open spec fn returns_covered(self, from: int) -> Verdict
        decreases self.visits.len() - from,
    {
        if from < 0 || from >= self.visits.len() {
            Ok(())
        } else {
            both(self.return_covered(from), self.returns_covered(from + 1))
        }
    }

    /// The facts about `return` from one on.
    pub open spec fn return_facts(self, from: int) -> Verdict
        decreases self.semantic.flow.returns@.len() - from,
    {
        if from < 0 || from >= self.semantic.flow.returns@.len() {
            Ok(())
        } else {
            both(self.return_fact(from), self.return_facts(from + 1))
        }
    }

    /// The `break` and `continue` statements of the program from one node on.
    pub open spec fn controls_covered(self, from: int) -> Verdict
        decreases self.visits.len() - from,
    {
        if from < 0 || from >= self.visits.len() {
            Ok(())
        } else {
            both(self.control_covered(from), self.controls_covered(from + 1))
        }
    }

    /// The facts about `break` and `continue` from one on.
    pub open spec fn control_facts(self, from: int) -> Verdict
        decreases self.semantic.flow.loop_controls@.len() - from,
    {
        if from < 0 || from >= self.semantic.flow.loop_controls@.len() {
            Ok(())
        } else {
            both(self.control_fact(from), self.control_facts(from + 1))
        }
    }

    /// The implicit completions from one on.
    pub open spec fn completion_facts(self, from: int) -> Verdict
        decreases self.semantic.flow.completions@.len() - from,
    {
        if from < 0 || from >= self.semantic.flow.completions@.len() {
            Ok(())
        } else {
            both(self.completion_fact(from), self.completion_facts(from + 1))
        }
    }

    /// The functions of the program from one on.
    pub open spec fn completions_covered(self, from: int) -> Verdict
        decreases self.analysis.function_signatures@.len() - from,
    {
        if from < 0 || from >= self.analysis.function_signatures@.len() {
            Ok(())
        } else {
            both(self.completion_covered(from), self.completions_covered(from + 1))
        }
    }

    /// Whether everything that changes something has the right to.
    pub open spec fn mutability(self) -> Verdict {
        both(self.assignments_ask(0), both(self.mutation_subjects(0), self.mutation_rights(0)))
    }

    /// Whether the flow facts cover the program and agree with it.
    pub open spec fn flow(self) -> Verdict {
        both(
            self.flows_covered(0),
            both(
                self.flow_facts(0),
                both(
                    self.returns_covered(0),
                    both(
                        self.return_facts(0),
                        both(
                            self.controls_covered(0),
                            both(self.control_facts(0), both(self.completion_facts(0), self.completions_covered(0))),
                        ),
                    ),
                ),
            ),
        )
    }

    /// Whether the facts may be handed on, or else the first thing that is wrong with them.
    pub open spec fn verdict(self) -> Verdict {
        both(
            unless(
                self.analysis.diagnostics@.len() == 0 && self.semantic.diagnostics@.len() == 0,
                "validator requires diagnostic-free frontend input",
            ),
            both(
                self.identities(),
                both(
                    self.annotations(),
                    both(self.entry(), both(self.contextual_records(), both(self.mutability(), self.flow()))),
                ),
            ),
        )
    }
}

struct HandoffValidator<'a> {
    analysis: &'a Analysis<'a>,
    semantic: &'a SemanticResult,
    visits: Vec<Visit<'a>>,
}

impl<'a> HandoffValidator<'a> {
    spec fn view(&self) -> Handoff<'a> {
        Handoff { analysis: self.analysis, semantic: self.semantic, visits: self.visits@ }
    }

    fn has_node(&self, id: NodeId) -> (result: bool)
        ensures
            result == self@.has(id),
    {
        let mut index: usize = 0;
        while index < self.visits.len()
            invariant
                index <= self.visits@.len(),
                forall|i: int| 0 <= i < index ==> !#[trigger] shows(self.visits@[i], id),
            decreases self.visits@.len() - index,
        {
            if identify(&self.visits[index].node) == id {
                assert(shows(self@.visits[index as int], id));
                return true;
            }
            index += 1;
        }
        false
    }

    fn has_binding(&self, binding: BindingNode) -> (result: bool)
        ensures
            result == self@.has_binding(binding),
    {
        let mut index: usize = 0;
        while index < self.visits.len()
            invariant
                index <= self.visits@.len(),
                forall|i: int| 0 <= i < index ==> !#[trigger] binds(self.visits@[i], binding),
            decreases self.visits@.len() - index,
        {
            if introduced_by(&self.visits[index].node) == Some(binding) {
                assert(binds(self@.visits[index as int], binding));
                return true;
            }
            index += 1;
        }
        false
    }

    fn has_assignment(&self, target: Span) -> (result: bool)
        ensures
            result == self@.has_assignment(target),
    {
        let mut index: usize = 0;
        while index < self.visits.len()
            invariant
                index <= self.visits@.len(),
                forall|i: int| 0 <= i < index ==> !#[trigger] replaces(self.visits@[i], target),
            decreases self.visits@.len() - index,
        {
            if match assigned_by(&self.visits[index].node) {
                Some(found) => found.span == target,
                None => false,
            } {
                assert(replaces(self@.visits[index as int], target));
                return true;
            }
            index += 1;
        }
        false
    }

    fn has_use(&self, identifier: Span) -> (result: bool)
        ensures
            result == self@.has_use(identifier),
    {
        let mut index: usize = 0;
        while index < self.visits.len()
            invariant
                index <= self.visits@.len(),
                forall|i: int| 0 <= i < index ==> !#[trigger] reads(self.visits@[i], identifier),
            decreases self.visits@.len() - index,
        {
            if used_by(&self.visits[index].node) == Some(identifier) {
                assert(reads(self@.visits[index as int], identifier));
                return true;
            }
            index += 1;
        }
        false
    }

    fn has_declaration(&self, node: DeclarationNode) -> (result: bool)
        ensures
            result == self@.has_declaration(node),
    {
        let declarations = &self.analysis.program.declarations;
        let mut index: usize = 0;
        while index < declarations.len()
            invariant
                declarations@ == self.analysis.program.declarations@,
                index <= declarations@.len(),
                forall|i: int| 0 <= i < index ==> !#[trigger] declares(declarations@[i], node),
            decreases declarations@.len() - index,
        {
            let found = match (&declarations[index], node) {
                (Declaration::Type(found), DeclarationNode::Type(span)) => found.span == span,
                (Declaration::Function(found), DeclarationNode::Function(span)) => found.span == span,
                _ => false,
            };
            if found {
                assert(declares(self@.analysis.program.declarations@[index as int], node));
                return true;
            }
            index += 1;
        }
        false
    }

    fn has_subject(&self, node: AstNode) -> (result: bool)
        ensures
            result == self@.has_subject(node),
    {
        match node {
            AstNode::Declaration(node) => self.has_declaration(node),
            AstNode::Binding(node) => self.has_binding(node),
            AstNode::Type(span) => self.has_node(NodeId::Type(span)),
            AstNode::Statement(span) => self.has_node(NodeId::Statement(span)),
            AstNode::Expression(span) => self.has_node(NodeId::Expression(span)),
            AstNode::AssignmentTarget(span) => self.has_assignment(span),
        }
    }

    fn final_state(&self, state: TypeState) -> (result: bool)
        ensures
            result == self@.final_state(state),
    {
        match state {
            TypeState::Never => true,
            TypeState::Resolved(ty) => self.analysis.types.contains(ty),
            TypeState::Error | TypeState::Deferred(_) => false,
        }
    }

    fn known_state(&self, state: TypeState) -> (result: bool)
        ensures
            result == self@.known_state(state),
    {
        match state {
            TypeState::Resolved(ty) => self.analysis.types.contains(ty),
            TypeState::Deferred(id) => id.0 < self.analysis.deferred.len(),
            TypeState::Never | TypeState::Error => true,
        }
    }

    fn settled(&self, state: TypeState) -> (result: bool)
        ensures
            result == self@.settled(state),
    {
        match state {
            TypeState::Resolved(ty) => self.analysis.types.contains(ty),
            _ => false,
        }
    }

    #[verifier::loop_isolation(false)]
    fn definition_settled(&self, kind: &TypeDefinitionKind) -> (result: bool)
        ensures
            result == self@.definition_settled(*kind),
    {
        match kind {
            TypeDefinitionKind::Struct(members) => {
                let mut index: usize = 0;
                while index < members.len()
                    invariant
                        index <= members@.len(),
                        forall|i: int| 0 <= i < index ==> self@.settled((#[trigger] members@[i]).ty),
                    decreases members@.len() - index,
                {
                    if !self.settled(members[index].ty) {
                        return false;
                    }
                    index += 1;
                }
                true
            },
            TypeDefinitionKind::Tuple(members) => {
                let mut index: usize = 0;
                while index < members.len()
                    invariant
                        index <= members@.len(),
                        forall|i: int| 0 <= i < index ==> self@.settled((#[trigger] members@[i]).ty),
                    decreases members@.len() - index,
                {
                    if !self.settled(members[index].ty) {
                        return false;
                    }
                    index += 1;
                }
                true
            },
            TypeDefinitionKind::Union { alternatives, .. } => {
                let mut index: usize = 0;
                while index < alternatives.len()
                    invariant
                        index <= alternatives@.len(),
                        forall|i: int|
                            0 <= i < index ==> self@.analysis.types.has(payload_of((#[trigger] alternatives@[i])@)),
                    decreases alternatives@.len() - index,
                {
                    if !self.analysis.types.contains(alternative_payload(&alternatives[index])) {
                        return false;
                    }
                    index += 1;
                }
                true
            },
            TypeDefinitionKind::Invalid => false,
        }
    }

    fn declaration_record(&self, index: usize) -> (result: Verdict)
        requires
            index < self.analysis.declarations@.len(),
        ensures
            result == self@.declaration_record(index as int),
    {
        let record = self.analysis.declarations[index];
        let known = match record.id {
            DeclarationId::Type(id) => id.0 < self.analysis.type_definitions.len(),
            DeclarationId::Function(id) => id.0 < self.analysis.function_signatures.len(),
        };
        require(
            known && self.has_declaration(record.node),
            "declaration record has an invalid identity or foreign AST subject",
        )?;
        require(
            is_declaration_alone(&self.analysis.declarations, index),
            "declaration identity subject is duplicated",
        )
    }

    fn binding_record(&self, index: usize) -> (result: Verdict)
        requires
            index < self.analysis.bindings@.len(),
            self.analysis.bindings@.len() == self.analysis.binding_types@.len(),
        ensures
            result == self@.binding_record(index as int),
    {
        let binding = self.analysis.bindings[index];
        require(
            binding.id.0 == index && self.has_binding(binding.node),
            "binding record has an invalid identity or foreign AST subject",
        )?;
        require(is_binding_alone(&self.analysis.bindings, index), "binding identity subject is duplicated")?;
        let annotation = self.analysis.binding_types[index];
        require(
            annotation.binding == binding.id && self.final_state(annotation.state),
            "binding has a stale or unresolved final type",
        )
    }

    fn definition_record(&self, index: usize) -> (result: Verdict)
        requires
            index < self.analysis.type_definitions@.len(),
        ensures
            result == self@.definition_record(index as int),
    {
        let definition = &self.analysis.type_definitions[index];
        require(
            definition.id.0 == index && self.has_declaration(DeclarationNode::Type(definition.node.span)),
            "type definition identity is invalid or cross-linked",
        )?;
        require(
            self.definition_settled(&definition.kind),
            "type definition retains an invalid member or alternative type",
        )
    }

    fn type_name_entry(&self, index: usize) -> (result: Verdict)
        requires
            index < self.analysis.type_names@.len(),
        ensures
            result == self@.type_name_entry(index as int),
    {
        require(
            self.analysis.type_names[index].id.0 < self.analysis.type_definitions.len() && is_type_name_alone(
                &self.analysis.type_names,
                index,
            ),
            "resolved type namespace is invalid or duplicated",
        )
    }

    fn function_name_entry(&self, index: usize) -> (result: Verdict)
        requires
            index < self.analysis.function_names@.len(),
        ensures
            result == self@.function_name_entry(index as int),
    {
        require(
            self.analysis.function_names[index].id.0 < self.analysis.function_signatures.len()
                && is_function_name_alone(&self.analysis.function_names, index),
            "resolved function namespace is invalid or duplicated",
        )
    }

    fn parameters_known(&self, signature: &FunctionSignature<'a>) -> (result: bool)
        ensures
            result == (forall|i: int|
                0 <= i < signature.parameters@.len() ==> self@.parameter_known(#[trigger] signature.parameters@[i])),
    {
        let mut index: usize = 0;
        while index < signature.parameters.len()
            invariant
                index <= signature.parameters@.len(),
                forall|i: int| 0 <= i < index ==> self@.parameter_known(#[trigger] signature.parameters@[i]),
            decreases signature.parameters@.len() - index,
        {
            let parameter = &signature.parameters[index];
            if parameter.binding.0 >= self.analysis.bindings.len() || !self.has_node(
                NodeId::Parameter(parameter.node.span),
            ) || !self.settled(parameter.ty) {
                return false;
            }
            index += 1;
        }
        true
    }

    fn signature_record(&self, index: usize) -> (result: Verdict)
        requires
            index < self.analysis.function_signatures@.len(),
        ensures
            result == self@.signature_record(index as int),
    {
        let signature = &self.analysis.function_signatures[index];
        require(
            signature.id.0 == index && self.has_declaration(DeclarationNode::Function(signature.node.span))
                && self.settled(signature.result),
            "function signature identity or result type is invalid",
        )?;
        require(
            self.parameters_known(signature),
            "function parameter signature is invalid or cross-linked",
        )
    }

    fn deferred_record(&self, index: usize) -> (result: Verdict)
        requires
            index < self.analysis.deferred@.len(),
        ensures
            result == self@.deferred_record(index as int),
    {
        let deferred = self.analysis.deferred[index];
        require(
            deferred.id.0 == index && deferred.resolved && self.has_subject(deferred.node),
            "unresolved or invalid deferred analysis record",
        )
    }

    fn declaration_records(&self) -> (result: Verdict)
        ensures
            result == self@.declaration_records(0),
    {
        let mut index: usize = 0;
        while index < self.analysis.declarations.len()
            invariant
                index <= self.analysis.declarations@.len(),
                self@.declaration_records(index as int) == self@.declaration_records(0),
            decreases self.analysis.declarations@.len() - index,
        {
            self.declaration_record(index)?;
            index += 1;
        }
        Ok(())
    }

    fn binding_records(&self) -> (result: Verdict)
        requires
            self.analysis.bindings@.len() == self.analysis.binding_types@.len(),
        ensures
            result == self@.binding_records(0),
    {
        let mut index: usize = 0;
        while index < self.analysis.bindings.len()
            invariant
                self.analysis.bindings@.len() == self.analysis.binding_types@.len(),
                index <= self.analysis.bindings@.len(),
                self@.binding_records(index as int) == self@.binding_records(0),
            decreases self.analysis.bindings@.len() - index,
        {
            self.binding_record(index)?;
            index += 1;
        }
        Ok(())
    }

    fn definition_records(&self) -> (result: Verdict)
        ensures
            result == self@.definition_records(0),
    {
        let mut index: usize = 0;
        while index < self.analysis.type_definitions.len()
            invariant
                index <= self.analysis.type_definitions@.len(),
                self@.definition_records(index as int) == self@.definition_records(0),
            decreases self.analysis.type_definitions@.len() - index,
        {
            self.definition_record(index)?;
            index += 1;
        }
        Ok(())
    }

    fn type_names(&self) -> (result: Verdict)
        ensures
            result == self@.type_names(0),
    {
        let mut index: usize = 0;
        while index < self.analysis.type_names.len()
            invariant
                index <= self.analysis.type_names@.len(),
                self@.type_names(index as int) == self@.type_names(0),
            decreases self.analysis.type_names@.len() - index,
        {
            self.type_name_entry(index)?;
            index += 1;
        }
        Ok(())
    }

    fn signature_records(&self) -> (result: Verdict)
        ensures
            result == self@.signature_records(0),
    {
        let mut index: usize = 0;
        while index < self.analysis.function_signatures.len()
            invariant
                index <= self.analysis.function_signatures@.len(),
                self@.signature_records(index as int) == self@.signature_records(0),
            decreases self.analysis.function_signatures@.len() - index,
        {
            self.signature_record(index)?;
            index += 1;
        }
        Ok(())
    }

    fn function_names(&self) -> (result: Verdict)
        ensures
            result == self@.function_names(0),
    {
        let mut index: usize = 0;
        while index < self.analysis.function_names.len()
            invariant
                index <= self.analysis.function_names@.len(),
                self@.function_names(index as int) == self@.function_names(0),
            decreases self.analysis.function_names@.len() - index,
        {
            self.function_name_entry(index)?;
            index += 1;
        }
        Ok(())
    }

    fn deferred_records(&self) -> (result: Verdict)
        ensures
            result == self@.deferred_records(0),
    {
        let mut index: usize = 0;
        while index < self.analysis.deferred.len()
            invariant
                index <= self.analysis.deferred@.len(),
                self@.deferred_records(index as int) == self@.deferred_records(0),
            decreases self.analysis.deferred@.len() - index,
        {
            self.deferred_record(index)?;
            index += 1;
        }
        Ok(())
    }

    fn count_functions(&self) -> (result: usize)
        ensures
            result == functions_before(
                self.analysis.program.declarations@,
                self.analysis.program.declarations@.len() as int,
            ),
            result <= self.analysis.program.declarations@.len(),
    {
        let declarations = &self.analysis.program.declarations;
        let mut functions: usize = 0;
        let mut index: usize = 0;
        while index < declarations.len()
            invariant
                index <= declarations@.len(),
                functions <= index,
                functions == functions_before(declarations@, index as int),
            decreases declarations@.len() - index,
        {
            match &declarations[index] {
                Declaration::Function(_) => {
                    functions += 1;
                },
                Declaration::Type(_) => {},
            }
            index += 1;
        }
        functions
    }

    fn count_bindings(&self) -> (result: usize)
        ensures
            result == bindings_before(self.visits@, self.visits@.len() as int),
    {
        let mut bindings: usize = 0;
        let mut index: usize = 0;
        while index < self.visits.len()
            invariant
                index <= self.visits@.len(),
                bindings <= index,
                bindings == bindings_before(self.visits@, index as int),
            decreases self.visits@.len() - index,
        {
            if introduced_by(&self.visits[index].node).is_some() {
                bindings += 1;
            }
            index += 1;
        }
        bindings
    }

    fn validate_identities(&self) -> (result: Verdict)
        ensures
            result == self@.identities(),
    {
        require(
            self.analysis.declarations.len() == self.analysis.program.declarations.len(),
            "declaration identity coverage is incomplete",
        )?;
        let functions = self.count_functions();
        let types: usize = self.analysis.program.declarations.len() - functions;
        require(
            self.analysis.type_definitions.len() == types && self.analysis.function_signatures.len() == functions
                && self.analysis.type_names.len() == types && self.analysis.function_names.len() == functions,
            "declaration namespace or definition coverage is incomplete",
        )?;
        require(self.analysis.bindings.len() == self.count_bindings(), "binding identity coverage is incomplete")?;
        require(
            self.analysis.binding_types.len() == self.analysis.bindings.len(),
            "binding type coverage is incomplete",
        )?;
        self.declaration_records()?;
        self.binding_records()?;
        self.definition_records()?;
        self.type_names()?;
        self.signature_records()?;
        self.function_names()?;
        self.deferred_records()?;
        require(
            self.semantic.deferred_mutability.len() == 0 && self.semantic.flow.deferred.len() == 0,
            "unresolved semantic obligation remains",
        )
    }

    fn has_literal(&self, span: Span) -> (result: bool)
        ensures
            result == self@.has_literal(span),
    {
        let mut index: usize = 0;
        while index < self.visits.len()
            invariant
                index <= self.visits@.len(),
                forall|i: int| 0 <= i < index ==> !#[trigger] literal_shown(self.visits@[i], span),
            decreases self.visits@.len() - index,
        {
            if match as_expression(&self.visits[index].node) {
                Some(found) => found.span == span && literal_kind(&found.kind),
                None => false,
            } {
                assert(literal_shown(self@.visits[index as int], span));
                return true;
            }
            index += 1;
        }
        false
    }

    fn has_conversion(&self, span: Span) -> (result: bool)
        ensures
            result == self@.has_conversion(span),
    {
        let mut index: usize = 0;
        while index < self.visits.len()
            invariant
                index <= self.visits@.len(),
                forall|i: int| 0 <= i < index ==> !#[trigger] conversion_shown(self.visits@[i], span),
            decreases self.visits@.len() - index,
        {
            if match as_expression(&self.visits[index].node) {
                Some(found) => found.span == span && matches!(found.kind, ExpressionKind::Conversion { .. }),
                None => false,
            } {
                assert(conversion_shown(self@.visits[index as int], span));
                return true;
            }
            index += 1;
        }
        false
    }

    fn has_call(&self, span: Span) -> (result: bool)
        ensures
            result == self@.has_call(span),
    {
        let mut index: usize = 0;
        while index < self.visits.len()
            invariant
                index <= self.visits@.len(),
                forall|i: int| 0 <= i < index ==> !#[trigger] call_shown(self.visits@[i], span),
            decreases self.visits@.len() - index,
        {
            if match as_expression(&self.visits[index].node) {
                Some(found) => found.span == span && matches!(found.kind, ExpressionKind::Call { .. }),
                None => false,
            } {
                assert(call_shown(self@.visits[index as int], span));
                return true;
            }
            index += 1;
        }
        false
    }

    fn is_callee(&self, callee: Span) -> (result: bool)
        ensures
            result == self@.is_callee(callee),
    {
        let mut index: usize = 0;
        while index < self.visits.len()
            invariant
                index <= self.visits@.len(),
                forall|i: int| 0 <= i < index ==> !#[trigger] called(self.visits@[i], callee),
            decreases self.visits@.len() - index,
        {
            if match as_expression(&self.visits[index].node) {
                Some(found) => match &found.kind {
                    ExpressionKind::Call { callee: found, .. } => found.span == callee,
                    _ => false,
                },
                None => false,
            } {
                assert(called(self@.visits[index as int], callee));
                return true;
            }
            index += 1;
        }
        false
    }

    #[verifier::spinoff_prover]
    fn callee_syntax(&self, span: Span) -> (result: bool)
        ensures
            result == self@.callee_syntax(span),
    {
        if self.is_callee(span) {
            return true;
        }
        let mut index: usize = 0;
        while index < self.visits.len()
            invariant
                index <= self.visits@.len(),
                forall|i: int| 0 <= i < index ==> !#[trigger] self@.qualifies(self@.visits[i], span),
            decreases self.visits@.len() - index,
        {
            if let Some(call) = as_expression(&self.visits[index].node) {
                if let Some(CallTarget::QualifiedConstructor(_)) = self.analysis.call_target(call.span) {
                    if let ExpressionKind::Call { callee, .. } = &call.kind {
                        if let ExpressionKind::Member { value, .. } = &callee.kind {
                            if value.span == span {
                                assert(self@.qualifies(self@.visits[index as int], span));
                                return true;
                            }
                        }
                    }
                }
            }
            index += 1;
        }
        false
    }

    fn type_at(&self, ty: TypeId) -> (result: Option<&'a ResolvedType>)
        ensures
            match result {
                Some(found) => self@.type_at(ty) == Some(*found),
                None => self@.type_at(ty) is None,
            },
    {
        if self.analysis.types.contains(ty) {
            Some(self.analysis.types.get(ty))
        } else {
            None
        }
    }

    fn definition_at(&self, declaration: TypeDeclarationId) -> (result: Option<&'a TypeDefinitionKind>)
        ensures
            match result {
                Some(found) => self@.definition_at(declaration) == Some(*found),
                None => self@.definition_at(declaration) is None,
            },
    {
        if declaration.0 < self.analysis.type_definitions.len() {
            Some(&self.analysis.type_definitions[declaration.0].kind)
        } else {
            None
        }
    }

    fn union_alternatives(&self, ty: TypeId) -> (result: Option<&'a Vec<UnionAlternative>>)
        ensures
            match result {
                Some(found) => self@.union_alternatives(ty) == Some(found@),
                None => self@.union_alternatives(ty) is None,
            },
    {
        match self.type_at(ty) {
            Some(ResolvedType::Union(alternatives)) => Some(alternatives),
            Some(ResolvedType::Nominal(declaration)) => match self.definition_at(*declaration) {
                Some(TypeDefinitionKind::Union { alternatives, .. }) => Some(alternatives),
                _ => None,
            },
            _ => None,
        }
    }

    fn union_has(&self, ty: TypeId, alternative: &UnionAlternative) -> (result: bool)
        ensures
            result == self@.union_has(ty, alternative@),
    {
        let listed = match self.union_alternatives(ty) {
            Some(alternatives) => contains_alternative(alternatives, alternative),
            None => false,
        };
        listed && self.analysis.types.contains(alternative_payload(alternative))
    }

    fn value_state(&self, expression: Span) -> (result: Option<TypeState>)
        ensures
            result == self@.value_state(expression),
    {
        match self.analysis.union_injection(expression) {
            Some(injection) => Some(TypeState::Resolved(alternative_payload(&injection.alternative))),
            None => self.analysis.expression_state(expression),
        }
    }

    fn expression_at(&self, span: Span) -> (result: Option<&'a Expression>)
        ensures
            result == expression_from(self.visits@, span, 0),
            result matches Some(expression) ==> expression.span == span,
    {
        let mut index: usize = 0;
        while index < self.visits.len()
            invariant
                index <= self.visits@.len(),
                expression_from(self.visits@, span, index as int) == expression_from(self.visits@, span, 0),
            decreases self.visits@.len() - index,
        {
            if let Some(expression) = as_expression(&self.visits[index].node) {
                if expression.span == span {
                    return Some(expression);
                }
            }
            index += 1;
        }
        None
    }

    fn target_at(&self, span: Span) -> (result: Option<&'a AssignmentTarget>)
        ensures
            result == target_from(self.visits@, span, 0),
    {
        let mut index: usize = 0;
        while index < self.visits.len()
            invariant
                index <= self.visits@.len(),
                target_from(self.visits@, span, index as int) == target_from(self.visits@, span, 0),
            decreases self.visits@.len() - index,
        {
            if let Some(target) = assigned_by(&self.visits[index].node) {
                if target.span == span {
                    return Some(target);
                }
            }
            index += 1;
        }
        None
    }

    fn of_type(&self, expression: Span, ty: TypeId) -> (result: bool)
        ensures
            result == (state_of(self.analysis, expression) == Some(TypeState::Resolved(ty))),
    {
        match self.analysis.expression_state(expression) {
            Some(TypeState::Resolved(found)) => found == ty,
            _ => false,
        }
    }

    fn value_of_type(&self, expression: Span, ty: TypeId) -> (result: bool)
        ensures
            result == (self@.value_state(expression) == Some(TypeState::Resolved(ty))),
    {
        match self.value_state(expression) {
            Some(TypeState::Resolved(found)) => found == ty,
            _ => false,
        }
    }

    fn of_nominal(&self, expression: Span, declaration: TypeDeclarationId) -> (result: bool)
        ensures
            result == self@.of_nominal(expression, declaration),
    {
        match self.analysis.expression_state(expression) {
            Some(TypeState::Resolved(ty)) => match self.type_at(ty) {
                Some(ResolvedType::Nominal(actual)) => *actual == declaration,
                _ => false,
            },
            _ => false,
        }
    }

    fn struct_field(
        &self,
        declaration: TypeDeclarationId,
        field: usize,
        storage: MemberStorage,
        state: TypeState,
    ) -> (result:
        bool)
        ensures
            result == self@.struct_field(declaration, field, storage, state),
    {
        match self.definition_at(declaration) {
            Some(TypeDefinitionKind::Struct(fields)) => field < fields.len() && fields[field].storage == storage
                && fields[field].ty == state,
            _ => false,
        }
    }

    #[verifier::spinoff_prover]
    fn projection_agrees(&self, expression: &Expression, kind: ProjectionKind) -> (result: bool)
        ensures
            result == self@.projection_agrees(expression, kind),
    {
        let int_type = self.analysis.types.primitive(PrimitiveType::Int);
        match (&expression.kind, kind) {
            (ExpressionKind::Index { value, index }, ProjectionKind::List { element }) => {
                let listed = match self.analysis.expression_state(value.span) {
                    Some(TypeState::Resolved(ty)) => match self.type_at(ty) {
                        Some(ResolvedType::List(actual)) => *actual == element,
                        _ => false,
                    },
                    _ => false,
                };
                self.value_of_type(expression.span, element) && listed && self.of_type(index.span, int_type)
            },
            (ExpressionKind::Index { value, index }, ProjectionKind::Mapping { key, value: item }) => {
                let mapped = match self.analysis.expression_state(value.span) {
                    Some(TypeState::Resolved(ty)) => match self.type_at(ty) {
                        Some(ResolvedType::Mapping { key: actual_key, value: actual_value }) => *actual_key == key
                            && *actual_value == item,
                        _ => false,
                    },
                    _ => false,
                };
                self.value_of_type(expression.span, item) && mapped && self.of_type(index.span, key)
            },
            (ExpressionKind::Index { value, index }, ProjectionKind::String { result: character }) => {
                self.value_of_type(expression.span, character) && character == self.analysis.types.primitive(
                    PrimitiveType::Char,
                ) && self.of_type(value.span, self.analysis.types.primitive(PrimitiveType::Str)) && self.of_type(
                    index.span,
                    int_type,
                )
            },
            (
                ExpressionKind::Member { value, .. },
                ProjectionKind::Struct { declaration, field, storage, result: member_type },
            ) => {
                self.value_of_type(expression.span, member_type) && self.of_nominal(value.span, declaration)
                    && self.struct_field(declaration, field, storage, TypeState::Resolved(member_type))
            },
            (
                ExpressionKind::Member { value, .. },
                ProjectionKind::Tuple { declaration, position, result: member_type },
            ) => {
                let placed = match self.definition_at(declaration) {
                    Some(TypeDefinitionKind::Tuple(fields)) => position < fields.len() && fields[position].ty
                        == TypeState::Resolved(member_type),
                    _ => false,
                };
                self.value_of_type(expression.span, member_type) && self.of_nominal(value.span, declaration) && placed
            },
            _ => false,
        }
    }

    fn tuple_member(&self, declaration: TypeDeclarationId, member: Span, position: usize, state: TypeState) -> (result:
        bool)
        ensures
            result == self@.tuple_member(declaration, member, position, state),
    {
        let members = match self.definition_at(declaration) {
            Some(TypeDefinitionKind::Tuple(members)) => members,
            _ => return false,
        };
        let wanted = TupleMember { node: member, position, ty: state };
        let mut index: usize = 0;
        while index < members.len()
            invariant
                self@.definition_at(declaration) == Some(TypeDefinitionKind::Tuple(*members)),
                wanted == (TupleMember { node: member, position, ty: state }),
                index <= members@.len(),
                forall|i: int| 0 <= i < index ==> #[trigger] members@[i] != wanted,
            decreases members@.len() - index,
        {
            if members[index] == wanted {
                return true;
            }
            index += 1;
        }
        false
    }

    #[verifier::spinoff_prover]
    fn step_agrees(&self, step: AccessPathStep, target: &AssignmentTarget) -> (result: bool)
        ensures
            result == self@.step_agrees(step, target),
    {
        match step {
            AccessPathStep::StructMember { suffix, declaration, member, field, storage, state } => {
                let placed = match self.definition_at(declaration) {
                    Some(TypeDefinitionKind::Struct(members)) => field < members.len() && members[field].node == member
                        && members[field].storage == storage && members[field].ty == state,
                    _ => false,
                };
                find_suffix(target, suffix) && placed && self.known_state(state)
            },
            AccessPathStep::TupleMember { suffix, declaration, member, position, state } => find_suffix(target, suffix)
                && self.tuple_member(declaration, member, position, state) && self.known_state(state),
            AccessPathStep::ListIndex { suffix, element, state } => find_suffix(target, suffix)
                && self.analysis.types.contains(element) && state == TypeState::Resolved(element),
            AccessPathStep::MapIndex { suffix, key, value, state } => find_suffix(target, suffix)
                && self.analysis.types.contains(key) && self.analysis.types.contains(value) && state
                == TypeState::Resolved(value),
        }
    }

    fn type_annotation(&self, index: usize) -> (result: Verdict)
        requires
            index < self.analysis.type_annotations@.len(),
        ensures
            result == self@.type_annotation(index as int),
    {
        let annotation = self.analysis.type_annotations[index];
        require(
            self.has_node(NodeId::Type(annotation.node)) && self.known_state(annotation.state),
            "type annotation is invalid or has a foreign AST subject",
        )
    }

    fn expression_annotation(&self, index: usize) -> (result: Verdict)
        requires
            index < self.analysis.expression_annotations@.len(),
        ensures
            result == self@.expression_annotation(index as int),
    {
        let annotation = self.analysis.expression_annotations[index];
        require(
            self.has_node(NodeId::Expression(annotation.node)) && self.known_state(annotation.state),
            "expression annotation is invalid or has a foreign AST subject",
        )
    }

    fn steps_agree(&self, steps: &Vec<AccessPathStep>, target: &AssignmentTarget) -> (result: bool)
        ensures
            result == (forall|i: int| 0 <= i < steps@.len() ==> self@.step_agrees(#[trigger] steps@[i], target)),
    {
        let mut index: usize = 0;
        while index < steps.len()
            invariant
                index <= steps@.len(),
                forall|i: int| 0 <= i < index ==> self@.step_agrees(#[trigger] steps@[i], target),
            decreases steps@.len() - index,
        {
            if !self.step_agrees(steps[index], target) {
                return false;
            }
            index += 1;
        }
        true
    }

    fn assignment_annotation(&self, index: usize) -> (result: Verdict)
        requires
            index < self.analysis.assignment_targets@.len(),
        ensures
            result == self@.assignment_annotation(index as int),
    {
        let annotation = &self.analysis.assignment_targets[index];
        let rooted = match annotation.root {
            Some(root) => root.0 < self.analysis.bindings.len(),
            None => true,
        };
        let agrees = match self.target_at(annotation.node) {
            Some(target) => self.known_state(annotation.state) && rooted && self.steps_agree(&annotation.steps, target),
            None => false,
        };
        require(agrees, "assignment annotation is invalid or has a foreign AST subject")
    }

    fn annotated_type(&self, index: usize) -> (result: Verdict)
        requires
            index < self.visits@.len(),
        ensures
            result == self@.annotated_type(index as int),
    {
        match self.visits[index].node {
            Node::Type(ty) => match latest_fact(&self.analysis.type_annotations, ty.span) {
                None => Err("type node has no final annotation"),
                Some(found) => require(
                    self.settled(self.analysis.type_annotations[found].state),
                    "type node has a stale or unresolved final annotation",
                ),
            },
            _ => Ok(()),
        }
    }

    fn annotated_expression(&self, index: usize) -> (result: Verdict)
        requires
            index < self.visits@.len(),
        ensures
            result == self@.annotated_expression(index as int),
    {
        match as_expression(&self.visits[index].node) {
            Some(expression) => {
                if self.callee_syntax(expression.span) {
                    return Ok(());
                }
                match self.analysis.expression_state(expression.span) {
                    None => Err("expression has no final annotation"),
                    Some(state) => require(
                        self.final_state(state),
                        "expression has a stale or unresolved final annotation",
                    ),
                }
            },
            None => Ok(()),
        }
    }

    fn annotated_literal(&self, index: usize) -> (result: Verdict)
        requires
            index < self.visits@.len(),
        ensures
            result == self@.annotated_literal(index as int),
    {
        match as_expression(&self.visits[index].node) {
            Some(expression) => require(
                !literal_kind(&expression.kind) || count_facts(&self.analysis.literals, expression.span) == 1,
                "literal annotation coverage is missing or duplicated",
            ),
            None => Ok(()),
        }
    }

    fn literal_fact(&self, index: usize) -> (result: Verdict)
        requires
            index < self.analysis.literals@.len(),
        ensures
            result == self@.literal_fact(index as int),
    {
        require(
            self.has_literal(self.analysis.literals[index].node),
            "literal annotation has a foreign AST subject",
        )
    }

    #[verifier::spinoff_prover]
    fn conversion_agrees(&self, expression: &Expression, destination: PrimitiveType, operand: Span) -> (result: bool)
        ensures
            result == self@.conversion_agrees(expression, destination, operand),
    {
        match latest_fact(&self.analysis.numeric_conversions, expression.span) {
            Some(index) => {
                let record = self.analysis.numeric_conversions[index];
                let numeric = match (self.type_at(record.source), self.type_at(record.destination)) {
                    (
                        Some(ResolvedType::Primitive(PrimitiveType::Int)),
                        Some(ResolvedType::Primitive(PrimitiveType::Float)),
                    ) => true,
                    (
                        Some(ResolvedType::Primitive(PrimitiveType::Float)),
                        Some(ResolvedType::Primitive(PrimitiveType::Int)),
                    ) => true,
                    _ => false,
                };
                record.destination == self.analysis.types.primitive(destination) && self.of_type(operand, record.source)
                    && self.value_of_type(expression.span, record.destination) && numeric
            },
            None => false,
        }
    }

    fn is_resolved(&self, expression: Span) -> (result: bool)
        ensures
            result == (state_of(self.analysis, expression) matches Some(TypeState::Resolved(_))),
    {
        match self.analysis.expression_state(expression) {
            Some(TypeState::Resolved(_)) => true,
            _ => false,
        }
    }

    fn converted(&self, expression: &Expression) -> (result: Verdict)
        ensures
            result == self@.converted(expression),
    {
        match &expression.kind {
            ExpressionKind::Conversion { destination, operand } => {
                let expected = self.is_resolved(expression.span);
                let count: usize = if expected { 1 } else { 0 };
                require(
                    count_facts(&self.analysis.numeric_conversions, expression.span) == count,
                    "numeric conversion coverage is missing or duplicated",
                )?;
                require(
                    !expected || self.conversion_agrees(expression, *destination, operand.span),
                    "numeric conversion resolution is contradictory",
                )
            },
            _ => Ok(()),
        }
    }

    fn projects(&self, expression: &Expression) -> (result: bool)
        ensures
            result == self@.projects(expression),
    {
        let applicable = match &expression.kind {
            ExpressionKind::Index { .. } | ExpressionKind::Member { .. } => true,
            _ => false,
        };
        applicable && !self.callee_syntax(expression.span) && self.is_resolved(expression.span)
    }

    fn resolved_expression(&self, index: usize) -> (result: Verdict)
        requires
            index < self.visits@.len(),
        ensures
            result == self@.resolved_expression(index as int),
    {
        match as_expression(&self.visits[index].node) {
            Some(expression) => {
                self.converted(expression)?;
                let count: usize = if self.projects(expression) { 1 } else { 0 };
                require(
                    count_facts(&self.analysis.projections, expression.span) == count,
                    "value projection coverage is missing or duplicated",
                )
            },
            None => Ok(()),
        }
    }

    fn conversion_fact(&self, index: usize) -> (result: Verdict)
        requires
            index < self.analysis.numeric_conversions@.len(),
        ensures
            result == self@.conversion_fact(index as int),
    {
        require(
            self.has_conversion(self.analysis.numeric_conversions[index].node),
            "numeric conversion resolution has a foreign AST subject",
        )
    }

    fn projection_fact(&self, index: usize) -> (result: Verdict)
        requires
            index < self.analysis.projections@.len(),
        ensures
            result == self@.projection_fact(index as int),
    {
        let projection = self.analysis.projections[index];
        let agrees = match self.expression_at(projection.node) {
            Some(expression) => !self.callee_syntax(projection.node) && self.projection_agrees(
                expression,
                projection.kind,
            ),
            None => false,
        };
        require(agrees, "value projection resolution is contradictory or cross-linked")
    }

    fn target_known(&self, target: CallTarget) -> (result: bool)
        ensures
            result == self@.target_known(target),
    {
        match target {
            CallTarget::Callable(CallableId::Function(id)) => id.0 < self.analysis.function_signatures.len(),
            CallTarget::Callable(CallableId::Constructor(id)) => id.0 < self.analysis.type_definitions.len(),
            CallTarget::QualifiedConstructor(id) => id.0 < self.analysis.type_definitions.len(),
            CallTarget::Callable(CallableId::Intrinsic(_)) => true,
            CallTarget::Builtin(_) => true,
            CallTarget::ErrorConstructor => true,
            _ => false,
        }
    }

    #[verifier::spinoff_prover]
    fn resolved_call(&self, index: usize) -> (result: Verdict)
        requires
            index < self.visits@.len(),
        ensures
            result == self@.resolved_call(index as int),
    {
        match as_expression(&self.visits[index].node) {
            Some(expression) => {
                let call = match &expression.kind {
                    ExpressionKind::Call { .. } => true,
                    _ => false,
                };
                if !call {
                    return Ok(());
                }
                require(
                    count_facts(&self.analysis.calls, expression.span) == 1,
                    "call resolution coverage is missing or duplicated",
                )?;
                match self.analysis.call_target(expression.span) {
                    Some(target) => {
                        let callable = match target {
                            CallTarget::Unknown
                            | CallTarget::Expression
                            | CallTarget::Binding(_)
                            | CallTarget::Ambiguous { .. }
                            | CallTarget::AmbiguousErrorConstructor { .. } => false,
                            _ => true,
                        };
                        require(callable, "call retained an unresolved or non-callable target")?;
                        require(self.target_known(target), "call target contains an invalid stable identity")?;
                        let constructor = match target {
                            CallTarget::Callable(CallableId::Constructor(_))
                            | CallTarget::QualifiedConstructor(_)
                            | CallTarget::ErrorConstructor => true,
                            _ => false,
                        };
                        let count: usize = if constructor { 1 } else { 0 };
                        require(
                            count_facts(&self.analysis.constructors, expression.span) == count,
                            "constructor resolution coverage is missing or duplicated",
                        )
                    },
                    None => Ok(()),
                }
            },
            None => Ok(()),
        }
    }

    fn call_fact(&self, index: usize) -> (result: Verdict)
        requires
            index < self.analysis.calls@.len(),
        ensures
            result == self@.call_fact(index as int),
    {
        let call = self.analysis.calls[index];
        require(
            self.has_call(call.node) && self.has_node(NodeId::Expression(call.callee)),
            "call resolution has a foreign AST subject",
        )
    }

    fn resolved_name(&self, index: usize) -> (result: Verdict)
        requires
            index < self.visits@.len(),
        ensures
            result == self@.resolved_name(index as int),
    {
        match used_by(&self.visits[index].node) {
            Some(identifier) => require(
                count_facts(&self.analysis.name_uses, identifier) == 1,
                "name-use resolution coverage is missing or duplicated",
            ),
            None => Ok(()),
        }
    }

    fn resolution_known(&self, resolution: NameResolution) -> (result: bool)
        ensures
            result == self@.resolution_known(resolution),
    {
        match resolution {
            NameResolution::Binding(id) => id.0 < self.analysis.bindings.len(),
            NameResolution::Callable(CallableId::Function(id)) => id.0 < self.analysis.function_signatures.len(),
            NameResolution::Callable(CallableId::Constructor(id)) => id.0 < self.analysis.type_definitions.len(),
            NameResolution::Callable(CallableId::Intrinsic(_)) => true,
            NameResolution::ErrorConstructor => true,
            _ => false,
        }
    }

    fn name_fact(&self, index: usize) -> (result: Verdict)
        requires
            index < self.analysis.name_uses@.len(),
        ensures
            result == self@.name_fact(index as int),
    {
        let name = self.analysis.name_uses[index];
        require(
            self.has_use(name.node) && self.resolution_known(name.resolution),
            "name-use resolution is unresolved or cross-linked",
        )
    }

    fn annotated_target(&self, index: usize) -> (result: Verdict)
        requires
            index < self.visits@.len(),
        ensures
            result == self@.annotated_target(index as int),
    {
        match assigned_by(&self.visits[index].node) {
            Some(target) => match latest_fact(&self.analysis.assignment_targets, target.span) {
                None => Err("assignment target has no final annotation"),
                Some(found) => {
                    let annotation = &self.analysis.assignment_targets[found];
                    require(
                        annotation.root.is_some() && annotation.steps.len() == target.suffixes.len() && self.settled(
                            annotation.state,
                        ),
                        "executable assignment target has an incomplete typed path",
                    )
                },
            },
            None => Ok(()),
        }
    }

    fn union_declares(&self, declaration: TypeDeclarationId, alternative: &UnionAlternative) -> (result: bool)
        ensures
            result == (self@.definition_at(declaration) matches Some(TypeDefinitionKind::Union { alternatives, .. })
                && lists(alternatives@, alternative@)),
    {
        match self.definition_at(declaration) {
            Some(TypeDefinitionKind::Union { alternatives, .. }) => contains_alternative(alternatives, alternative),
            _ => false,
        }
    }

    #[verifier::loop_isolation(false)]
    fn constructor_agrees(&self, kind: &ConstructorKind) -> (result: bool)
        ensures
            result == self@.constructor_agrees(*kind),
    {
        match kind {
            ConstructorKind::Struct { declaration, argument_members } => match self.definition_at(*declaration) {
                Some(TypeDefinitionKind::Struct(members)) => {
                    if argument_members.len() != members.len() {
                        return false;
                    }
                    let mut index: usize = 0;
                    while index < argument_members.len()
                        invariant
                            index <= argument_members@.len(),
                            forall|i: int| 0 <= i < index ==> #[trigger] argument_members@[i] < members@.len(),
                        decreases argument_members@.len() - index,
                    {
                        if argument_members[index] >= members.len() {
                            return false;
                        }
                        index += 1;
                    }
                    true
                },
                _ => false,
            },
            ConstructorKind::Tuple(declaration) => match self.definition_at(*declaration) {
                Some(TypeDefinitionKind::Tuple(_)) => true,
                _ => false,
            },
            ConstructorKind::Union { declaration, alternative } => self.union_declares(*declaration, alternative),
            ConstructorKind::TaggedUnion { declaration, alternative } => self.union_declares(*declaration, alternative),
            ConstructorKind::Error { union_type, alternative } => self.union_has(*union_type, alternative),
        }
    }

    fn constructor_fact(&self, index: usize) -> (result: Verdict)
        requires
            index < self.analysis.constructors@.len(),
        ensures
            result == self@.constructor_fact(index as int),
    {
        let constructor = &self.analysis.constructors[index];
        require(
            self.has_node(NodeId::Expression(constructor.node)) && self.constructor_agrees(&constructor.kind),
            "constructor resolution is invalid or cross-linked",
        )
    }

    fn injection_subject(&self, index: usize) -> (result: Verdict)
        requires
            index < self.analysis.union_injection_subjects@.len(),
        ensures
            result == self@.injection_subject(index as int),
    {
        let subject = &self.analysis.union_injection_subjects[index];
        require(
            count_injections(&self.analysis.union_injection_subjects, subject, index) == 0 && self.has_node(
                NodeId::Expression(subject.node),
            ) && self.union_has(subject.union_type, &subject.alternative) && count_injections(
                &self.analysis.union_injections,
                subject,
                self.analysis.union_injections.len(),
            ) == 1,
            "union injection coverage is invalid or incomplete",
        )
    }

    fn injection_fact(&self, index: usize) -> (result: Verdict)
        requires
            index < self.analysis.union_injections@.len(),
        ensures
            result == self@.injection_fact(index as int),
    {
        let injection = &self.analysis.union_injections[index];
        require(
            self.has_node(NodeId::Expression(injection.node)) && self.union_has(
                injection.union_type,
                &injection.alternative,
            ) && !was_injected(&self.analysis.union_injections, index) && count_injections(
                &self.analysis.union_injection_subjects,
                injection,
                self.analysis.union_injection_subjects.len(),
            ) == 1,
            "union injection is invalid, duplicated, or cross-linked",
        )
    }

    fn type_annotations(&self) -> (result: Verdict)
        ensures
            result == self@.type_annotations(0),
    {
        let mut index: usize = 0;
        while index < self.analysis.type_annotations.len()
            invariant
                index <= self.analysis.type_annotations@.len(),
                self@.type_annotations(index as int) == self@.type_annotations(0),
            decreases self.analysis.type_annotations@.len() - index,
        {
            self.type_annotation(index)?;
            index += 1;
        }
        Ok(())
    }

    fn expression_annotations(&self) -> (result: Verdict)
        ensures
            result == self@.expression_annotations(0),
    {
        let mut index: usize = 0;
        while index < self.analysis.expression_annotations.len()
            invariant
                index <= self.analysis.expression_annotations@.len(),
                self@.expression_annotations(index as int) == self@.expression_annotations(0),
            decreases self.analysis.expression_annotations@.len() - index,
        {
            self.expression_annotation(index)?;
            index += 1;
        }
        Ok(())
    }

    fn assignment_annotations(&self) -> (result: Verdict)
        ensures
            result == self@.assignment_annotations(0),
    {
        let mut index: usize = 0;
        while index < self.analysis.assignment_targets.len()
            invariant
                index <= self.analysis.assignment_targets@.len(),
                self@.assignment_annotations(index as int) == self@.assignment_annotations(0),
            decreases self.analysis.assignment_targets@.len() - index,
        {
            self.assignment_annotation(index)?;
            index += 1;
        }
        Ok(())
    }

    fn annotated_types(&self) -> (result: Verdict)
        ensures
            result == self@.annotated_types(0),
    {
        let mut index: usize = 0;
        while index < self.visits.len()
            invariant
                index <= self.visits@.len(),
                self@.annotated_types(index as int) == self@.annotated_types(0),
            decreases self.visits@.len() - index,
        {
            self.annotated_type(index)?;
            index += 1;
        }
        Ok(())
    }

    fn annotated_expressions(&self) -> (result: Verdict)
        ensures
            result == self@.annotated_expressions(0),
    {
        let mut index: usize = 0;
        while index < self.visits.len()
            invariant
                index <= self.visits@.len(),
                self@.annotated_expressions(index as int) == self@.annotated_expressions(0),
            decreases self.visits@.len() - index,
        {
            self.annotated_expression(index)?;
            index += 1;
        }
        Ok(())
    }

    fn annotated_literals(&self) -> (result: Verdict)
        ensures
            result == self@.annotated_literals(0),
    {
        let mut index: usize = 0;
        while index < self.visits.len()
            invariant
                index <= self.visits@.len(),
                self@.annotated_literals(index as int) == self@.annotated_literals(0),
            decreases self.visits@.len() - index,
        {
            self.annotated_literal(index)?;
            index += 1;
        }
        Ok(())
    }

    fn literal_facts(&self) -> (result: Verdict)
        ensures
            result == self@.literal_facts(0),
    {
        let mut index: usize = 0;
        while index < self.analysis.literals.len()
            invariant
                index <= self.analysis.literals@.len(),
                self@.literal_facts(index as int) == self@.literal_facts(0),
            decreases self.analysis.literals@.len() - index,
        {
            self.literal_fact(index)?;
            index += 1;
        }
        Ok(())
    }

    fn resolved_expressions(&self) -> (result: Verdict)
        ensures
            result == self@.resolved_expressions(0),
    {
        let mut index: usize = 0;
        while index < self.visits.len()
            invariant
                index <= self.visits@.len(),
                self@.resolved_expressions(index as int) == self@.resolved_expressions(0),
            decreases self.visits@.len() - index,
        {
            self.resolved_expression(index)?;
            index += 1;
        }
        Ok(())
    }

    fn conversion_facts(&self) -> (result: Verdict)
        ensures
            result == self@.conversion_facts(0),
    {
        let mut index: usize = 0;
        while index < self.analysis.numeric_conversions.len()
            invariant
                index <= self.analysis.numeric_conversions@.len(),
                self@.conversion_facts(index as int) == self@.conversion_facts(0),
            decreases self.analysis.numeric_conversions@.len() - index,
        {
            self.conversion_fact(index)?;
            index += 1;
        }
        Ok(())
    }

    fn projection_facts(&self) -> (result: Verdict)
        ensures
            result == self@.projection_facts(0),
    {
        let mut index: usize = 0;
        while index < self.analysis.projections.len()
            invariant
                index <= self.analysis.projections@.len(),
                self@.projection_facts(index as int) == self@.projection_facts(0),
            decreases self.analysis.projections@.len() - index,
        {
            self.projection_fact(index)?;
            index += 1;
        }
        Ok(())
    }

    fn resolved_calls(&self) -> (result: Verdict)
        ensures
            result == self@.resolved_calls(0),
    {
        let mut index: usize = 0;
        while index < self.visits.len()
            invariant
                index <= self.visits@.len(),
                self@.resolved_calls(index as int) == self@.resolved_calls(0),
            decreases self.visits@.len() - index,
        {
            self.resolved_call(index)?;
            index += 1;
        }
        Ok(())
    }

    fn call_facts(&self) -> (result: Verdict)
        ensures
            result == self@.call_facts(0),
    {
        let mut index: usize = 0;
        while index < self.analysis.calls.len()
            invariant
                index <= self.analysis.calls@.len(),
                self@.call_facts(index as int) == self@.call_facts(0),
            decreases self.analysis.calls@.len() - index,
        {
            self.call_fact(index)?;
            index += 1;
        }
        Ok(())
    }

    fn resolved_names(&self) -> (result: Verdict)
        ensures
            result == self@.resolved_names(0),
    {
        let mut index: usize = 0;
        while index < self.visits.len()
            invariant
                index <= self.visits@.len(),
                self@.resolved_names(index as int) == self@.resolved_names(0),
            decreases self.visits@.len() - index,
        {
            self.resolved_name(index)?;
            index += 1;
        }
        Ok(())
    }

    fn name_facts(&self) -> (result: Verdict)
        ensures
            result == self@.name_facts(0),
    {
        let mut index: usize = 0;
        while index < self.analysis.name_uses.len()
            invariant
                index <= self.analysis.name_uses@.len(),
                self@.name_facts(index as int) == self@.name_facts(0),
            decreases self.analysis.name_uses@.len() - index,
        {
            self.name_fact(index)?;
            index += 1;
        }
        Ok(())
    }

    fn annotated_targets(&self) -> (result: Verdict)
        ensures
            result == self@.annotated_targets(0),
    {
        let mut index: usize = 0;
        while index < self.visits.len()
            invariant
                index <= self.visits@.len(),
                self@.annotated_targets(index as int) == self@.annotated_targets(0),
            decreases self.visits@.len() - index,
        {
            self.annotated_target(index)?;
            index += 1;
        }
        Ok(())
    }

    fn constructor_facts(&self) -> (result: Verdict)
        ensures
            result == self@.constructor_facts(0),
    {
        let mut index: usize = 0;
        while index < self.analysis.constructors.len()
            invariant
                index <= self.analysis.constructors@.len(),
                self@.constructor_facts(index as int) == self@.constructor_facts(0),
            decreases self.analysis.constructors@.len() - index,
        {
            self.constructor_fact(index)?;
            index += 1;
        }
        Ok(())
    }

    fn injection_subjects(&self) -> (result: Verdict)
        ensures
            result == self@.injection_subjects(0),
    {
        let mut index: usize = 0;
        while index < self.analysis.union_injection_subjects.len()
            invariant
                index <= self.analysis.union_injection_subjects@.len(),
                self@.injection_subjects(index as int) == self@.injection_subjects(0),
            decreases self.analysis.union_injection_subjects@.len() - index,
        {
            self.injection_subject(index)?;
            index += 1;
        }
        Ok(())
    }

    fn injection_facts(&self) -> (result: Verdict)
        ensures
            result == self@.injection_facts(0),
    {
        let mut index: usize = 0;
        while index < self.analysis.union_injections.len()
            invariant
                index <= self.analysis.union_injections@.len(),
                self@.injection_facts(index as int) == self@.injection_facts(0),
            decreases self.analysis.union_injections@.len() - index,
        {
            self.injection_fact(index)?;
            index += 1;
        }
        Ok(())
    }

    fn annotation_tables(&self) -> (result: Verdict)
        ensures
            result == self@.annotation_tables(),
    {
        self.type_annotations()?;
        self.expression_annotations()?;
        self.assignment_annotations()
    }

    fn value_tables(&self) -> (result: Verdict)
        ensures
            result == self@.value_tables(),
    {
        self.annotated_types()?;
        self.annotated_expressions()?;
        self.annotated_literals()?;
        self.literal_facts()?;
        self.resolved_expressions()?;
        self.conversion_facts()?;
        self.projection_facts()
    }

    fn name_tables(&self) -> (result: Verdict)
        ensures
            result == self@.name_tables(),
    {
        self.resolved_calls()?;
        self.call_facts()?;
        self.resolved_names()?;
        self.name_facts()?;
        self.annotated_targets()?;
        self.constructor_facts()
    }

    fn injection_tables(&self) -> (result: Verdict)
        ensures
            result == self@.injection_tables(),
    {
        self.injection_subjects()?;
        self.injection_facts()
    }

    fn validate_annotations(&self) -> (result: Verdict)
        ensures
            result == self@.annotations(),
    {
        self.annotation_tables()?;
        self.value_tables()?;
        self.name_tables()?;
        self.injection_tables()
    }

    fn binding_known(&self, binding: Option<BindingId>) -> (result: bool)
        ensures
            result == self@.binding_known(binding),
    {
        match binding {
            Some(id) => id.0 < self.analysis.bindings.len(),
            None => true,
        }
    }

    fn tested(&self, index: usize) -> (result: Verdict)
        requires
            index < self.visits@.len(),
        ensures
            result == self@.tested(index as int),
    {
        match as_expression(&self.visits[index].node) {
            Some(expression) => {
                let test = match &expression.kind {
                    ExpressionKind::Is { .. } => true,
                    _ => false,
                };
                require(
                    !test || count_facts(&self.semantic.union_tests, expression.span) == 1,
                    "union test resolution coverage is missing or duplicated",
                )
            },
            None => Ok(()),
        }
    }

    fn test_fact(&self, index: usize) -> (result: Verdict)
        requires
            index < self.semantic.union_tests@.len(),
        ensures
            result == self@.test_fact(index as int),
    {
        let test = &self.semantic.union_tests[index];
        require(
            self.has_node(NodeId::Expression(test.expression)) && self.union_has(test.operand_union, &test.alternative)
                && alternative_payload(&test.alternative) == test.payload && self.binding_known(test.binding),
            "union test resolution is contradictory or cross-linked",
        )
    }

    fn switched(&self, index: usize) -> (result: Verdict)
        requires
            index < self.visits@.len(),
        ensures
            result == self@.switched(index as int),
    {
        match as_statement(&self.visits[index].node) {
            Some(statement) => {
                let switch = match &statement.kind {
                    StatementKind::Switch { .. } => true,
                    _ => false,
                };
                require(
                    !switch || count_facts(&self.semantic.switches, statement.span) == 1,
                    "switch resolution coverage is missing or duplicated",
                )
            },
            None => Ok(()),
        }
    }

    fn arms_agree(&self, switch: &SwitchResolution, arms: &Vec<SwitchArm>) -> (result: bool)
        ensures
            result == (forall|i: int|
                0 <= i < switch.arms@.len() ==> self@.arm_agrees(
                    switch.operand_union,
                    arms@,
                    #[trigger] switch.arms@[i],
                )),
    {
        let mut index: usize = 0;
        while index < switch.arms.len()
            invariant
                index <= switch.arms@.len(),
                forall|i: int|
                    0 <= i < index ==> self@.arm_agrees(switch.operand_union, arms@, #[trigger] switch.arms@[i]),
            decreases switch.arms@.len() - index,
        {
            let arm = &switch.arms[index];
            if !find_arm(arms, arm.arm) || !self.union_has(switch.operand_union, &arm.alternative)
                || alternative_payload(&arm.alternative) != arm.payload {
                return false;
            }
            index += 1;
        }
        true
    }

    fn coverage(&self, switch: &SwitchResolution) -> (result: Verdict)
        ensures
            result == self@.coverage(*switch),
    {
        let mut covered = true;
        let mut index: usize = 0;
        while index < switch.arms.len()
            invariant
                index <= switch.arms@.len(),
                covered == (forall|i: int|
                    0 <= i < index ==> lists(switch.covered@, (#[trigger] switch.arms@[i]).alternative@)),
            decreases switch.arms@.len() - index,
        {
            if !contains_alternative(&switch.covered, &switch.arms[index].alternative) {
                covered = false;
            }
            index += 1;
        }
        require(
            covered && switch.covered.len() == switch.arms.len(),
            "switch covered set disagrees with its unique arms",
        )?;
        match self.union_alternatives(switch.operand_union) {
            None => Err("switch operand identity is not a union"),
            Some(direct) => require(
                are_listed(&switch.covered, direct) && are_different(&switch.covered) && (switch.else_body.is_some()
                    || are_listed(direct, &switch.covered)),
                "switch coverage contradicts its direct alternatives",
            ),
        }
    }

    fn statement_at(&self, span: Span) -> (result: Option<&'a Statement>)
        ensures
            result == statement_from(self.visits@, span, 0),
    {
        let mut index: usize = 0;
        while index < self.visits.len()
            invariant
                index <= self.visits@.len(),
                statement_from(self.visits@, span, index as int) == statement_from(self.visits@, span, 0),
            decreases self.visits@.len() - index,
        {
            if let Some(statement) = as_statement(&self.visits[index].node) {
                if statement.span == span {
                    return Some(statement);
                }
            }
            index += 1;
        }
        None
    }

    #[verifier::spinoff_prover]
    fn switch_fact(&self, index: usize) -> (result: Verdict)
        requires
            index < self.semantic.switches@.len(),
        ensures
            result == self@.switch_fact(index as int),
    {
        let switch = &self.semantic.switches[index];
        let statement = match self.statement_at(switch.statement) {
            Some(statement) => statement,
            None => return Err("switch resolution is incomplete or cross-linked"),
        };
        require(
            switch.exhaustive && self.binding_known(switch.binding),
            "switch resolution is incomplete or cross-linked",
        )?;
        match &statement.kind {
            StatementKind::Switch { arms, else_body, .. } => {
                let body = match else_body {
                    Some(body) => Some(body.span),
                    None => None,
                };
                require(
                    switch.arms.len() == arms.len() && switch.else_body == body,
                    "switch arm or else coverage is incomplete",
                )?;
                require(self.arms_agree(switch, arms), "switch alternative resolution is contradictory")?;
                self.coverage(switch)
            },
            _ => Err("switch resolution refers to a non-switch statement"),
        }
    }

    fn tried(&self, index: usize) -> (result: Verdict)
        requires
            index < self.visits@.len(),
        ensures
            result == self@.tried(index as int),
    {
        match as_expression(&self.visits[index].node) {
            Some(expression) => match &expression.kind {
                ExpressionKind::Try { value, .. } => {
                    let count: usize = match self.analysis.expression_state(value.span) {
                        Some(TypeState::Never) => 0,
                        _ => 1,
                    };
                    require(
                        count_facts(&self.semantic.tries, expression.span) == count,
                        "postfix try resolution coverage is missing or duplicated",
                    )
                },
                _ => Ok(()),
            },
            None => Ok(()),
        }
    }

    fn enclosing(&self, id: NodeId) -> (result: Option<FunctionId>)
        ensures
            result == self@.enclosing(id),
    {
        let mut index: usize = 0;
        while index < self.visits.len()
            invariant
                index <= self.visits@.len(),
                function_from(self.visits@, id, index as int) == function_from(self.visits@, id, 0),
            decreases self.visits@.len() - index,
        {
            if identify(&self.visits[index].node) == id {
                if let Some(function) = self.visits[index].at.function {
                    return if function < self.analysis.function_signatures.len() {
                        Some(self.analysis.function_signatures[function].id)
                    } else {
                        None
                    };
                }
            }
            index += 1;
        }
        None
    }

    fn success_agrees(&self, success: TypeId, alternatives: &Vec<UnionAlternative>) -> (result: bool)
        ensures
            result == self@.success_agrees(success, alternatives@),
    {
        let (_errors, successes) = split_alternatives(alternatives);
        assert(alternative_views(successes@).len() == successes@.len());
        if successes.len() == 1 {
            assert(alternative_views(successes@)[0] == successes@[0]@);
            success == alternative_payload(&successes[0])
        } else {
            match self.type_at(success) {
                Some(ResolvedType::Union(actual)) => same_alternatives(actual, &successes),
                _ => false,
            }
        }
    }

    fn is_entry(&self, function: FunctionId) -> (result: bool)
        ensures
            result == self@.is_entry(function),
    {
        match self.semantic.entry_point {
            Some(entry) => entry.function == function,
            None => false,
        }
    }

    fn action_agrees(&self, resolution: &TryResolution, function: FunctionId) -> (result: Verdict)
        ensures
            result == self@.action_agrees(*resolution, function),
    {
        match &resolution.action {
            TryAction::Panic { function: acting } => require(
                *acting == function && self.is_entry(function),
                "postfix try panic action has the wrong function",
            ),
            TryAction::Propagate { function: acting, destination_union, destination_error } => require(
                *acting == function && !self.is_entry(function) && function.0 < self.analysis.function_signatures.len()
                    && self.analysis.function_signatures[function.0].result == TypeState::Resolved(*destination_union)
                    && self.union_has(*destination_union, destination_error) && alternative_payload(destination_error)
                    == alternative_payload(&resolution.source_error),
                "postfix try propagation action is contradictory",
            ),
        }
    }

    fn try_flow(&self, resolution: &TryResolution) -> (result: Verdict)
        ensures
            result == self@.try_flow(*resolution),
    {
        match find_record(&self.semantic.flow.summaries, FlowSubject::Expression(resolution.expression)) {
            None => Err("postfix try has no flow summary"),
            Some(index) => {
                let flow = &self.semantic.flow.summaries[index].summary;
                let acts = match &resolution.action {
                    TryAction::Propagate { .. } => flow.flags.returns,
                    TryAction::Panic { .. } => flow.flags.diverges,
                };
                require(
                    acts && flow.fallthrough != FallthroughKind::Never,
                    "postfix try flow omits its success or action path",
                )
            },
        }
    }

    fn try_fact(&self, index: usize) -> (result: Verdict)
        requires
            index < self.semantic.tries@.len(),
        ensures
            result == self@.try_fact(index as int),
    {
        let resolution = &self.semantic.tries[index];
        let failing = match &resolution.source_error {
            UnionAlternative::Error(_) => true,
            _ => false,
        };
        require(
            self.has_node(NodeId::Expression(resolution.expression)) && self.union_has(
                resolution.operand_union,
                &resolution.source_error,
            ) && failing && self.analysis.types.contains(resolution.success) && self.of_type(
                resolution.expression,
                resolution.success,
            ),
            "postfix try resolution is contradictory or cross-linked",
        )?;
        match self.union_alternatives(resolution.operand_union) {
            None => Ok(()),
            Some(alternatives) => {
                let (errors, _successes) = split_alternatives(alternatives);
                require(errors == 1, "postfix try operand does not have one direct Error alternative")?;
                require(
                    self.success_agrees(resolution.success, alternatives),
                    "postfix try success type contradicts its operand alternatives",
                )?;
                match self.enclosing(NodeId::Expression(resolution.expression)) {
                    None => Err("postfix try has no enclosing function"),
                    Some(function) => {
                        self.action_agrees(resolution, function)?;
                        self.try_flow(resolution)
                    },
                }
            },
        }
    }

    fn validate_entry_point(&self) -> (result: Verdict)
        ensures
            result == self@.entry(),
    {
        match self.semantic.entry_point {
            None => Err("diagnostic-free result has no entry point"),
            Some(entry) => {
                let id = entry.function_id();
                if id.0 >= self.analysis.function_signatures.len() {
                    return Err("entry point has an invalid function identity");
                }
                let signature = &self.analysis.function_signatures[id.0];
                require(
                    signature.id == id && self.analysis.function_by_name("main") == Some(id) && valid_main_signature(
                        self.analysis,
                        signature,
                    ),
                    "entry point disagrees with the resolved main declaration",
                )
            },
        }
    }

    fn tests(&self) -> (result: Verdict)
        ensures
            result == self@.tests(0),
    {
        let mut index: usize = 0;
        while index < self.visits.len()
            invariant
                index <= self.visits@.len(),
                self@.tests(index as int) == self@.tests(0),
            decreases self.visits@.len() - index,
        {
            self.tested(index)?;
            index += 1;
        }
        Ok(())
    }

    fn test_facts(&self) -> (result: Verdict)
        ensures
            result == self@.test_facts(0),
    {
        let mut index: usize = 0;
        while index < self.semantic.union_tests.len()
            invariant
                index <= self.semantic.union_tests@.len(),
                self@.test_facts(index as int) == self@.test_facts(0),
            decreases self.semantic.union_tests@.len() - index,
        {
            self.test_fact(index)?;
            index += 1;
        }
        Ok(())
    }

    fn switches(&self) -> (result: Verdict)
        ensures
            result == self@.switches(0),
    {
        let mut index: usize = 0;
        while index < self.visits.len()
            invariant
                index <= self.visits@.len(),
                self@.switches(index as int) == self@.switches(0),
            decreases self.visits@.len() - index,
        {
            self.switched(index)?;
            index += 1;
        }
        Ok(())
    }

    fn switch_facts(&self) -> (result: Verdict)
        ensures
            result == self@.switch_facts(0),
    {
        let mut index: usize = 0;
        while index < self.semantic.switches.len()
            invariant
                index <= self.semantic.switches@.len(),
                self@.switch_facts(index as int) == self@.switch_facts(0),
            decreases self.semantic.switches@.len() - index,
        {
            self.switch_fact(index)?;
            index += 1;
        }
        Ok(())
    }

    fn attempts(&self) -> (result: Verdict)
        ensures
            result == self@.attempts(0),
    {
        let mut index: usize = 0;
        while index < self.visits.len()
            invariant
                index <= self.visits@.len(),
                self@.attempts(index as int) == self@.attempts(0),
            decreases self.visits@.len() - index,
        {
            self.tried(index)?;
            index += 1;
        }
        Ok(())
    }

    fn try_facts(&self) -> (result: Verdict)
        ensures
            result == self@.try_facts(0),
    {
        let mut index: usize = 0;
        while index < self.semantic.tries.len()
            invariant
                index <= self.semantic.tries@.len(),
                self@.try_facts(index as int) == self@.try_facts(0),
            decreases self.semantic.tries@.len() - index,
        {
            self.try_fact(index)?;
            index += 1;
        }
        Ok(())
    }

    fn validate_contextual_records(&self) -> (result: Verdict)
        ensures
            result == self@.contextual_records(),
    {
        self.tests()?;
        self.test_facts()?;
        self.switches()?;
        self.switch_facts()?;
        self.attempts()?;
        self.try_facts()
    }

    fn has_flow(&self, subject: FlowSubject) -> (result: bool)
        ensures
            result == self@.has_flow(subject),
    {
        let mut index: usize = 0;
        while index < self.visits.len()
            invariant
                index <= self.visits@.len(),
                forall|i: int| 0 <= i < index ==> !#[trigger] flows(self.visits@[i], subject),
            decreases self.visits@.len() - index,
        {
            if flow_subject_of(&self.visits[index].node) == Some(subject) {
                assert(flows(self@.visits[index as int], subject));
                return true;
            }
            index += 1;
        }
        false
    }

    fn has_return(&self, span: Span) -> (result: bool)
        ensures
            result == self@.has_return(span),
    {
        let mut index: usize = 0;
        while index < self.visits.len()
            invariant
                index <= self.visits@.len(),
                forall|i: int| 0 <= i < index ==> !#[trigger] returned(self.visits@[i], span),
            decreases self.visits@.len() - index,
        {
            if match as_statement(&self.visits[index].node) {
                Some(found) => found.span == span && matches!(found.kind, StatementKind::Return(_)),
                None => false,
            } {
                assert(returned(self@.visits[index as int], span));
                return true;
            }
            index += 1;
        }
        false
    }

    fn assignment_asks(&self, index: usize) -> (result: Verdict)
        requires
            index < self.visits@.len(),
        ensures
            result == self@.assignment_asks(index as int),
    {
        match assigned_by(&self.visits[index].node) {
            Some(target) => require(
                count_subjects(
                    &self.semantic.mutation_subjects,
                    MutabilitySubject::Assignment(target.span),
                    self.semantic.mutation_subjects.len(),
                ) == 1,
                "assignment mutation coverage is missing or duplicated",
            ),
            None => Ok(()),
        }
    }

    fn subject_belongs(&self, subject: MutabilitySubject) -> (result: bool)
        ensures
            result == self@.subject_belongs(subject),
    {
        match subject {
            MutabilitySubject::Assignment(target) => self.has_assignment(target),
            MutabilitySubject::Receiver { call, receiver } => self.has_node(NodeId::Expression(call)) && self.has_node(
                NodeId::Expression(receiver),
            ),
            MutabilitySubject::Argument { call, argument } => match self.expression_at(call) {
                Some(expression) => find_argument(expression, argument),
                None => false,
            },
        }
    }

    fn mutation_subject(&self, index: usize) -> (result: Verdict)
        requires
            index < self.semantic.mutation_subjects@.len(),
        ensures
            result == self@.mutation_subject(index as int),
    {
        let subject = self.semantic.mutation_subjects[index];
        require(
            count_subjects(&self.semantic.mutation_subjects, subject, index) == 0 && self.subject_belongs(subject)
                && count_rights(&self.semantic.mutability, subject, self.semantic.mutability.len()) == 1,
            "mutation coverage is invalid or lacks one authorization",
        )
    }

    fn struct_member(
        &self,
        declaration: TypeDeclarationId,
        member: Span,
        storage: MemberStorage,
        state: TypeState,
    ) -> (result:
        bool)
        ensures
            result == self@.struct_member(declaration, member, storage, state),
    {
        let members = match self.definition_at(declaration) {
            Some(TypeDefinitionKind::Struct(members)) => members,
            _ => return false,
        };
        let mut index: usize = 0;
        while index < members.len()
            invariant
                self@.definition_at(declaration) == Some(TypeDefinitionKind::Struct(*members)),
                index <= members@.len(),
                forall|i: int|
                    0 <= i < index ==> !((#[trigger] members@[i]).node == member && members@[i].storage == storage
                        && members@[i].ty == state),
            decreases members@.len() - index,
        {
            if members[index].node == member && members[index].storage == storage && members[index].ty == state {
                return true;
            }
            index += 1;
        }
        false
    }

    fn has_state(&self, expression: Span, state: TypeState) -> (result: bool)
        ensures
            result == (state_of(self.analysis, expression) == Some(state)),
    {
        match self.analysis.expression_state(expression) {
            Some(found) => found == state,
            None => false,
        }
    }

    #[verifier::spinoff_prover]
    fn place_agrees(&self, step: PlaceStep) -> (result: bool)
        ensures
            result == self@.place_agrees(step),
    {
        match step {
            PlaceStep::StructMember { node, declaration, member, storage, state } => self.has_node(
                NodeId::Expression(node),
            ) && self.struct_member(declaration, member, storage, state) && self.has_state(node, state)
                && self.final_state(state),
            PlaceStep::TupleMember { node, declaration, member, position, state } => self.has_node(
                NodeId::Expression(node),
            ) && self.tuple_member(declaration, member, position, state) && self.has_state(node, state)
                && self.final_state(state),
            PlaceStep::ListIndex { node, element, state } => self.has_node(NodeId::Expression(node))
                && self.analysis.types.contains(element) && state == TypeState::Resolved(element) && self.has_state(
                node,
                state,
            ),
            PlaceStep::MapIndex { node, key, value, state } => self.has_node(NodeId::Expression(node))
                && self.analysis.types.contains(key) && self.analysis.types.contains(value) && state
                == TypeState::Resolved(value) && self.has_state(node, state),
        }
    }

    fn path_agrees(&self, path: &Vec<PlaceStep>) -> (result: bool)
        ensures
            result == self@.path_agrees(path@),
    {
        let mut index: usize = 0;
        while index < path.len()
            invariant
                index <= path@.len(),
                forall|i: int| 0 <= i < index ==> self@.place_agrees(#[trigger] path@[i]),
            decreases path@.len() - index,
        {
            if !self.place_agrees(path[index]) {
                return false;
            }
            index += 1;
        }
        true
    }

    fn assignment_right(
        &self,
        right: &MutabilityResolution,
        target: Span,
        path: &Vec<AccessPathStep>,
    ) -> (result: Verdict)
        ensures
            result == self@.assignment_right(*right, target, path@),
    {
        match latest_fact(&self.analysis.assignment_targets, target) {
            None => Err("mutation authorization refers to an unannotated assignment"),
            Some(found) => {
                let annotation = &self.analysis.assignment_targets[found];
                let rooted = match annotation.root {
                    Some(root) => root == right.root,
                    None => false,
                };
                let syntax = self.target_at(target);
                require(
                    rooted && syntax.is_some() && same_steps(path, &annotation.steps),
                    "assignment mutation path contradicts name/type analysis",
                )?;
                match syntax {
                    Some(syntax) => match self.analysis.name_use(syntax.root.span) {
                        None => Err("assignment mutation authorization has no root name use"),
                        Some(name) => require(
                            name.resolution == NameResolution::Binding(right.root) && name.access == right.access,
                            "assignment mutation authorization contradicts root access",
                        ),
                    },
                    None => Ok(()),
                }
            },
        }
    }

    fn receiver_right(
        &self,
        right: &MutabilityResolution,
        call: Span,
        receiver: Span,
        path: &Vec<PlaceStep>,
    ) -> (result:
        Verdict)
        ensures
            result == self@.receiver_right(*right, call, receiver, path@),
    {
        require(
            self.has_node(NodeId::Expression(call)) && self.has_node(NodeId::Expression(receiver)),
            "receiver mutation authorization has a foreign AST subject",
        )?;
        let mutates = match self.analysis.call_target(call) {
            Some(CallTarget::Builtin(method)) => right.operation == MutabilityOperation::MutateReceiver(method),
            _ => false,
        };
        require(mutates, "receiver mutation authorization contradicts its call target")?;
        require(self.path_agrees(path), "receiver mutation authorization has an invalid typed path")
    }

    fn is_mutable_parameter(signature: &FunctionSignature<'a>, parameter: BindingId) -> (result: bool)
        ensures
            result == Handoff::mutable_parameter(*signature, parameter),
    {
        let mut index: usize = 0;
        while index < signature.parameters.len()
            invariant
                index <= signature.parameters@.len(),
                forall|i: int|
                    0 <= i < index ==> !((#[trigger] signature.parameters@[i]).binding == parameter
                        && signature.parameters@[i].node.mutable),
            decreases signature.parameters@.len() - index,
        {
            if signature.parameters[index].binding == parameter && signature.parameters[index].node.mutable {
                return true;
            }
            index += 1;
        }
        false
    }

    fn argument_right(
        &self,
        right: &MutabilityResolution,
        call: Span,
        argument: Span,
        path: &Vec<PlaceStep>,
    ) -> (result:
        Verdict)
        ensures
            result == self@.argument_right(*right, call, argument, path@),
    {
        let expression = match self.expression_at(call) {
            Some(expression) => expression,
            None => return Err("mutable argument authorization is invalid or cross-linked"),
        };
        match &expression.kind {
            ExpressionKind::Call { .. } => {},
            _ => return Err("mutable argument authorization refers to a non-call"),
        }
        require(
            find_argument(expression, argument) && self.path_agrees(path),
            "mutable argument authorization is invalid or cross-linked",
        )?;
        match right.operation {
            MutabilityOperation::MutableArgument { function, parameter } => {
                if function.0 >= self.analysis.function_signatures.len() {
                    return Err("mutable argument authorization has an invalid function");
                }
                require(
                    Self::is_mutable_parameter(&self.analysis.function_signatures[function.0], parameter),
                    "mutable argument authorization has an invalid parameter",
                )
            },
            _ => Err("mutable argument authorization has the wrong operation"),
        }
    }

    #[verifier::spinoff_prover]
    fn mutation_right(&self, index: usize) -> (result: Verdict)
        requires
            index < self.semantic.mutability@.len(),
        ensures
            result == self@.mutation_right(index as int),
    {
        let right = &self.semantic.mutability[index];
        require(
            right.root.0 < self.analysis.bindings.len() && count_rights(
                &self.semantic.mutability,
                right.subject,
                index,
            ) == 0 && count_subjects(
                &self.semantic.mutation_subjects,
                right.subject,
                self.semantic.mutation_subjects.len(),
            ) == 1,
            "mutation authorization has an invalid root or duplicate subject",
        )?;
        match (right.subject, &right.path) {
            (MutabilitySubject::Assignment(target), MutabilityPath::Assignment(path)) => self.assignment_right(
                right,
                target,
                path,
            )?,
            (MutabilitySubject::Receiver { call, receiver }, MutabilityPath::Expression(path)) => self.receiver_right(
                right,
                call,
                receiver,
                path,
            )?,
            (MutabilitySubject::Argument { call, argument }, MutabilityPath::Expression(path)) => self.argument_right(
                right,
                call,
                argument,
                path,
            )?,
            _ => return Err("mutation subject and typed path category disagree"),
        }
        require(
            right.operation != MutabilityOperation::DeferredPath,
            "mutation authorization retained a deferred operation",
        )
    }

    fn flow_covered(&self, index: usize) -> (result: Verdict)
        requires
            index < self.visits@.len(),
        ensures
            result == self@.flow_covered(index as int),
    {
        match flow_subject_of(&self.visits[index].node) {
            Some(subject) => require(
                count_records(&self.semantic.flow.summaries, subject) == 1,
                "flow summary coverage is missing or duplicated",
            ),
            None => Ok(()),
        }
    }

    fn flow_fact(&self, index: usize) -> (result: Verdict)
        requires
            index < self.semantic.flow.summaries@.len(),
        ensures
            result == self@.flow_fact(index as int),
    {
        let record = &self.semantic.flow.summaries[index];
        require(
            self.has_flow(record.subject) && record.summary.fallthrough != FallthroughKind::SwitchDependent
                && record.summary.switch_dependencies.len() == 0 && record.summary.flags.fallthrough
                == record.summary.can_fallthrough(),
            "flow summary is unresolved, contradictory, or cross-linked",
        )
    }

    fn return_covered(&self, index: usize) -> (result: Verdict)
        requires
            index < self.visits@.len(),
        ensures
            result == self@.return_covered(index as int),
    {
        match as_statement(&self.visits[index].node) {
            Some(statement) => {
                let returning = match &statement.kind {
                    StatementKind::Return(_) => true,
                    _ => false,
                };
                require(
                    !returning || count_facts(&self.semantic.flow.returns, statement.span) == 1,
                    "explicit return fact is missing or duplicated",
                )
            },
            None => Ok(()),
        }
    }

    fn unit_fits(&self, function: FunctionId, alternative: &UnionAlternative) -> (result: bool)
        ensures
            result == self@.unit_fits(function, alternative@),
    {
        if function.0 >= self.analysis.function_signatures.len() || alternative_payload(alternative)
            != self.analysis.types.unit() {
            return false;
        }
        match self.analysis.function_signatures[function.0].result {
            TypeState::Resolved(result) => self.union_has(result, alternative),
            _ => false,
        }
    }

    fn same_function(left: Option<FunctionId>, right: FunctionId) -> (result: bool)
        ensures
            result == (left == Some(right)),
    {
        match left {
            Some(left) => left == right,
            None => false,
        }
    }

    fn return_fact(&self, index: usize) -> (result: Verdict)
        requires
            index < self.semantic.flow.returns@.len(),
        ensures
            result == self@.return_fact(index as int),
    {
        let fact = &self.semantic.flow.returns[index];
        let typed = match fact.value {
            Some(value) => self.has_state(value, fact.value_state),
            None => fact.value_state == TypeState::Resolved(self.analysis.types.unit()),
        };
        require(
            self.has_return(fact.statement) && fact.function.0 < self.analysis.function_signatures.len()
                && Self::same_function(self.enclosing(NodeId::Statement(fact.statement)), fact.function) && typed,
            "explicit return fact is stale or cross-linked",
        )?;
        let fits = match &fact.unit_injection {
            Some(alternative) => fact.value.is_none() && self.unit_fits(fact.function, alternative),
            None => true,
        };
        require(fits, "explicit unit return injection is contradictory")
    }

    fn control_covered(&self, index: usize) -> (result: Verdict)
        requires
            index < self.visits@.len(),
        ensures
            result == self@.control_covered(index as int),
    {
        match controlled_by(&self.visits[index].node) {
            Some(control) => require(
                count_facts(&self.semantic.flow.loop_controls, control) == 1,
                "loop-control target is missing or duplicated",
            ),
            None => Ok(()),
        }
    }

    fn loop_around(&self, control: Span) -> (result: Option<Span>)
        ensures
            result == loop_from(self.visits@, control, 0),
    {
        let mut index: usize = 0;
        while index < self.visits.len()
            invariant
                index <= self.visits@.len(),
                loop_from(self.visits@, control, index as int) == loop_from(self.visits@, control, 0),
            decreases self.visits@.len() - index,
        {
            if controlled_by(&self.visits[index].node) == Some(control) && self.visits[index].at.innermost.is_some() {
                return self.visits[index].at.innermost;
            }
            index += 1;
        }
        None
    }

    fn control_fact(&self, index: usize) -> (result: Verdict)
        requires
            index < self.semantic.flow.loop_controls@.len(),
        ensures
            result == self@.control_fact(index as int),
    {
        let control = self.semantic.flow.loop_controls[index];
        require(
            self.loop_around(control.statement) == Some(control.target),
            "loop control does not target its nearest enclosing loop",
        )
    }

    fn completion_fact(&self, index: usize) -> (result: Verdict)
        requires
            index < self.semantic.flow.completions@.len(),
        ensures
            result == self@.completion_fact(index as int),
    {
        let completion = &self.semantic.flow.completions[index];
        if completion.function.0 >= self.analysis.function_signatures.len() {
            return Err("function completion has an invalid function identity");
        }
        let signature = &self.analysis.function_signatures[completion.function.0];
        require(
            signature.node.body.span == completion.body && count_facts(
                &self.semantic.flow.completions,
                completion.body,
            ) == 1,
            "function completion is duplicated or cross-linked",
        )?;
        let fits = match &completion.unit_injection {
            None => signature.result == TypeState::Resolved(self.analysis.types.unit()),
            Some(alternative) => self.unit_fits(completion.function, alternative),
        };
        require(fits, "function completion disagrees with its unit result")
    }

    fn accepts_unit(&self, result: TypeId) -> (accepted: bool)
        ensures
            accepted == self@.accepts_unit(result),
    {
        if result == self.analysis.types.unit() {
            return true;
        }
        match self.union_alternatives(result) {
            Some(alternatives) => count_units(alternatives) == 1,
            None => false,
        }
    }

    fn completion_covered(&self, index: usize) -> (result: Verdict)
        requires
            index < self.analysis.function_signatures@.len(),
        ensures
            result == self@.completion_covered(index as int),
    {
        let signature = &self.analysis.function_signatures[index];
        match find_record(&self.semantic.flow.summaries, FlowSubject::Block(signature.node.body.span)) {
            None => Err("function body has no final flow summary"),
            Some(found) => {
                let summary = &self.semantic.flow.summaries[found].summary;
                let accepts = match signature.result {
                    TypeState::Resolved(result) => self.accepts_unit(result),
                    _ => false,
                };
                let needed = signature.node.body.value.is_none() && summary.fallthrough == FallthroughKind::Definite
                    && accepts;
                let count: usize = if needed { 1 } else { 0 };
                require(
                    count_completions(&self.semantic.flow.completions, signature.id) == count,
                    "implicit function completion coverage is incomplete or duplicated",
                )
            },
        }
    }

    fn assignments_ask(&self) -> (result: Verdict)
        ensures
            result == self@.assignments_ask(0),
    {
        let mut index: usize = 0;
        while index < self.visits.len()
            invariant
                index <= self.visits@.len(),
                self@.assignments_ask(index as int) == self@.assignments_ask(0),
            decreases self.visits@.len() - index,
        {
            self.assignment_asks(index)?;
            index += 1;
        }
        Ok(())
    }

    fn mutation_subjects(&self) -> (result: Verdict)
        ensures
            result == self@.mutation_subjects(0),
    {
        let mut index: usize = 0;
        while index < self.semantic.mutation_subjects.len()
            invariant
                index <= self.semantic.mutation_subjects@.len(),
                self@.mutation_subjects(index as int) == self@.mutation_subjects(0),
            decreases self.semantic.mutation_subjects@.len() - index,
        {
            self.mutation_subject(index)?;
            index += 1;
        }
        Ok(())
    }

    fn mutation_rights(&self) -> (result: Verdict)
        ensures
            result == self@.mutation_rights(0),
    {
        let mut index: usize = 0;
        while index < self.semantic.mutability.len()
            invariant
                index <= self.semantic.mutability@.len(),
                self@.mutation_rights(index as int) == self@.mutation_rights(0),
            decreases self.semantic.mutability@.len() - index,
        {
            self.mutation_right(index)?;
            index += 1;
        }
        Ok(())
    }

    fn flows_covered(&self) -> (result: Verdict)
        ensures
            result == self@.flows_covered(0),
    {
        let mut index: usize = 0;
        while index < self.visits.len()
            invariant
                index <= self.visits@.len(),
                self@.flows_covered(index as int) == self@.flows_covered(0),
            decreases self.visits@.len() - index,
        {
            self.flow_covered(index)?;
            index += 1;
        }
        Ok(())
    }

    fn flow_facts(&self) -> (result: Verdict)
        ensures
            result == self@.flow_facts(0),
    {
        let mut index: usize = 0;
        while index < self.semantic.flow.summaries.len()
            invariant
                index <= self.semantic.flow.summaries@.len(),
                self@.flow_facts(index as int) == self@.flow_facts(0),
            decreases self.semantic.flow.summaries@.len() - index,
        {
            self.flow_fact(index)?;
            index += 1;
        }
        Ok(())
    }

    fn returns_covered(&self) -> (result: Verdict)
        ensures
            result == self@.returns_covered(0),
    {
        let mut index: usize = 0;
        while index < self.visits.len()
            invariant
                index <= self.visits@.len(),
                self@.returns_covered(index as int) == self@.returns_covered(0),
            decreases self.visits@.len() - index,
        {
            self.return_covered(index)?;
            index += 1;
        }
        Ok(())
    }

    fn return_facts(&self) -> (result: Verdict)
        ensures
            result == self@.return_facts(0),
    {
        let mut index: usize = 0;
        while index < self.semantic.flow.returns.len()
            invariant
                index <= self.semantic.flow.returns@.len(),
                self@.return_facts(index as int) == self@.return_facts(0),
            decreases self.semantic.flow.returns@.len() - index,
        {
            self.return_fact(index)?;
            index += 1;
        }
        Ok(())
    }

    fn controls_covered(&self) -> (result: Verdict)
        ensures
            result == self@.controls_covered(0),
    {
        let mut index: usize = 0;
        while index < self.visits.len()
            invariant
                index <= self.visits@.len(),
                self@.controls_covered(index as int) == self@.controls_covered(0),
            decreases self.visits@.len() - index,
        {
            self.control_covered(index)?;
            index += 1;
        }
        Ok(())
    }

    fn control_facts(&self) -> (result: Verdict)
        ensures
            result == self@.control_facts(0),
    {
        let mut index: usize = 0;
        while index < self.semantic.flow.loop_controls.len()
            invariant
                index <= self.semantic.flow.loop_controls@.len(),
                self@.control_facts(index as int) == self@.control_facts(0),
            decreases self.semantic.flow.loop_controls@.len() - index,
        {
            self.control_fact(index)?;
            index += 1;
        }
        Ok(())
    }

    fn completion_facts(&self) -> (result: Verdict)
        ensures
            result == self@.completion_facts(0),
    {
        let mut index: usize = 0;
        while index < self.semantic.flow.completions.len()
            invariant
                index <= self.semantic.flow.completions@.len(),
                self@.completion_facts(index as int) == self@.completion_facts(0),
            decreases self.semantic.flow.completions@.len() - index,
        {
            self.completion_fact(index)?;
            index += 1;
        }
        Ok(())
    }

    fn completions_covered(&self) -> (result: Verdict)
        ensures
            result == self@.completions_covered(0),
    {
        let mut index: usize = 0;
        while index < self.analysis.function_signatures.len()
            invariant
                index <= self.analysis.function_signatures@.len(),
                self@.completions_covered(index as int) == self@.completions_covered(0),
            decreases self.analysis.function_signatures@.len() - index,
        {
            self.completion_covered(index)?;
            index += 1;
        }
        Ok(())
    }

    fn validate_mutability(&self) -> (result: Verdict)
        ensures
            result == self@.mutability(),
    {
        self.assignments_ask()?;
        self.mutation_subjects()?;
        self.mutation_rights()
    }

    fn validate_flow(&self) -> (result: Verdict)
        ensures
            result == self@.flow(),
    {
        self.flows_covered()?;
        self.flow_facts()?;
        self.returns_covered()?;
        self.return_facts()?;
        self.controls_covered()?;
        self.control_facts()?;
        self.completion_facts()?;
        self.completions_covered()
    }

    fn validate(&self) -> (result: Verdict)
        ensures
            result == self@.verdict(),
    {
        require(
            self.analysis.diagnostics.is_empty() && self.semantic.diagnostics.is_empty(),
            "validator requires diagnostic-free frontend input",
        )?;
        self.validate_identities()?;
        self.validate_annotations()?;
        self.validate_entry_point()?;
        self.validate_contextual_records()?;
        self.validate_mutability()?;
        self.validate_flow()
    }
}

/// The verdict on the facts about a program.
pub open spec fn handoff_verdict<'a>(analysis: &'a Analysis<'a>, semantic: &'a SemanticResult) -> Verdict {
    (Handoff { analysis, semantic, visits: program_visits(analysis.program) }).verdict()
}

/// Checks the complete, diagnostic-free result of the front end before anything consumes it.
///
/// This is deliberately recoverable: a broken compiler invariant is reported as an error of the compiler, not
/// as one of the source.
pub fn validate_handoff<'a>(analysis: &'a Analysis<'a>, semantic: &'a SemanticResult) -> (result: Result<
    (),
    Diagnostic,
>)
    ensures
        match handoff_verdict(analysis, semantic) {
            Ok(_) => result is Ok,
            Err(fault) => result is Err && result->Err_0@ == compiler_error(
                "semantic handoff invariant violated: "@ + fault@,
            ),
        },
{
    let validator = HandoffValidator { analysis, semantic, visits: visit_program(analysis.program) };
    match validator.validate() {
        Ok(_) => Ok(()),
        Err(fault) => Err(handoff_error(fault)),
    }
}

fn handoff_error(message: &str) -> (result: Diagnostic)
    ensures
        result@ == compiler_error("semantic handoff invariant violated: "@ + message@),
{
    let mut text = "semantic handoff invariant violated: ".to_owned();
    text.append(message);
    Diagnostic::compiler(text)
}

} // verus!
