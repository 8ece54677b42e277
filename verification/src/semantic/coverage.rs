//! What the resolution of a `switch` says of its union, and that a program without errors covers every alternative.

use crate::analysis::{
    AlternativeView, Analysis, BindingId, CallResolution, CallTarget, CallableId, FunctionId, FunctionSignature,
    ParameterSignature, TypeDefinitionKind, TypeId, TypeState, UnionStyle, alternative_views, payload_of,
};
use crate::ast::{
    Argument, ArgumentKind, AssignmentTarget, AssignmentTargetSuffix, AssignmentTargetSuffixKind,
    BinaryOperator, Block, ConditionalExpressionBranch, ConditionalStatementBranch, Expression, ExpressionBody,
    ExpressionBodyKind, ExpressionKind, MapEntry, Member, Statement, StatementBody, StatementBodyKind,
    StatementKind, SwitchArm, Type, TypeKind, UnaryOperator,
};
use crate::diagnostic::{DiagnosticView, MAX_SOURCE_ERRORS};
use crate::lowering::rules::text_at;
use crate::semantic::{
    MutabilityOperation, MutabilitySubject, SemanticResult, after_unions, analyzed, before_flow, before_unions,
    flow_context,
};
use crate::semantic::execution::lemma_flow_keeps_errors;
use crate::semantic::mutability::{
    MutabilityState, argument_judged, arguments_judged, asked, assignment_judged, assignment_rule,
    assignments_rule, call_at, call_judged, call_rule, calls_rule, denied, granted, mutability_rule,
    place_judged, postponed, unknown_method,
};
use crate::semantic::subjects::{Node, Visit, program_visits};
use crate::semantic::union_labels::{
    argument_checked, argument_type, arguments_checked, call_target, call_typed, first_error, first_tagged,
    first_untagged, is_typed, label_alternative, label_alternatives, label_noted, label_rule, label_type,
    method_checked, method_of, method_typed, named_type, passed, picked, retargeted, target_noted, target_typed,
    test_noted, try_noted, try_refused, try_success, try_typed, type_label, type_noted, type_settled,
};
use crate::semantic::union_rules::{
    ArmFact, Home, Shape, SwitchFact, UnionContext, UnionState, bare_type, binary_typed, block_value,
    body_value, cautioned, changed, choice_typed, exact, expected_value, index_typed, injected, interned, known,
    list_typed, mapping_typed, member_typed, name_typed, narrowed_by, objected, parts, projected, result_value,
    retyped, statement_settled, try_widened, unary_typed, unsupported, where_holds, widened, widened_from,
    with_narrowed,
};
use crate::semantic::union_validator::{shapes, switch_facts, union_context};
use crate::semantic::union_walk_rules::{
    Coverage, Subject, argument_rule, arguments_rule, arm_opened, arm_rule, arms_rule, assigned_in_body,
    behind_arms, behind_assignment, behind_body, behind_branches, behind_else, block_rule, body_rule,
    branch_rule, branches_rule, callee_rule, choice_body_rule, choice_rule, choices_rule, else_rule,
    entries_rule, entry_rule, expression_core_rule, expression_rule, expressions_rule, function_rule,
    functions_rule, local_settled, loose_arm_rule, loose_arms_rule, statement_rule, statements_rule,
    suffix_rule, suffixes_rule, switch_closed, switch_refused, switch_rule, target_rule, uncovered,
};
use crate::source::Span;
use vstd::prelude::*;

verus! {

/// The alternatives of a type that is a union, with or without a name.
pub open spec fn alternatives_of(c: UnionContext, types: Seq<Shape>, ty: TypeId) -> Option<Seq<AlternativeView>> {
    if ty.0 >= types.len() {
        None
    } else {
        match types[ty.0 as int] {
            Shape::Union(alternatives) => Some(alternatives),
            Shape::Nominal(declaration) => if declaration.0 < c.definitions.len() {
                match c.definitions[declaration.0 as int].kind {
                    TypeDefinitionKind::Union { alternatives, .. } => Some(alternative_views(alternatives@)),
                    _ => None,
                }
            } else {
                None
            },
            _ => None,
        }
    }
}

/// Whether an arm stands for an alternative.
pub open spec fn arm_for(arms: Seq<ArmFact>, alternative: AlternativeView) -> bool {
    exists|i: int| 0 <= i < arms.len() && (#[trigger] arms[i]).alternative == alternative
}

/// Whether every alternative has an arm.
pub open spec fn all_covered(alternatives: Seq<AlternativeView>, arms: Seq<ArmFact>) -> bool {
    forall|i: int| 0 <= i < alternatives.len() ==> arm_for(arms, #[trigger] alternatives[i])
}

/// Whether what is listed as covered is what the arms stand for, each once.
pub open spec fn tallied(
    alternatives: Seq<AlternativeView>,
    covered: Seq<AlternativeView>,
    arms: Seq<ArmFact>,
) -> bool {
    &&& covered.no_duplicates()
    &&& forall|i: int| 0 <= i < covered.len() ==> arm_for(arms, #[trigger] covered[i])
    &&& forall|i: int|
        0 <= i < arms.len() ==> covered.contains((#[trigger] arms[i]).alternative) && alternatives.contains(
            arms[i].alternative,
        ) && arms[i].payload == payload_of(arms[i].alternative)
}

/// Whether no two arms stand for the same alternative.
pub open spec fn distinct(arms: Seq<ArmFact>) -> bool {
    forall|i: int, j: int|
        0 <= i < j < arms.len() ==> (#[trigger] arms[i]).alternative != (#[trigger] arms[j]).alternative
}

/// Whether what is recorded of a `switch` is true of its union and its arms.
pub open spec fn truthful(c: UnionContext, types: Seq<Shape>, fact: SwitchFact) -> bool {
    &&& alternatives_of(c, types, fact.operand_union) matches Some(alternatives)
    &&& tallied(alternatives, fact.covered, fact.arms)
    &&& fact.exhaustive == (fact.else_body is Some || all_covered(alternatives, fact.arms))
}

/// Whether everything recorded of a `switch` is true, and right as far as no error was reported.
#[verifier::opaque]
pub open spec fn sound(c: UnionContext, s: UnionState) -> bool {
    forall|i: int|
        0 <= i < s.switches.len() ==> truthful(c, s.types, #[trigger] s.switches[i]) && (s.diagnostics.len() == 0
            ==> s.switches[i].exhaustive && distinct(s.switches[i].arms))
}

/// Whether a list was only added to.
pub open spec fn grown<A>(before: Seq<A>, after: Seq<A>) -> bool {
    &&& before.len() <= after.len()
    &&& forall|i: int| 0 <= i < before.len() ==> before[i] == #[trigger] after[i]
}

/// Whether a step resolves no `switch`, and loses no type and no error.
pub open spec fn quiet(before: UnionState, after: UnionState) -> bool {
    &&& after.switches == before.switches
    &&& grown(before.types, after.types)
    &&& before.diagnostics.len() <= after.diagnostics.len()
}

/// Whether a step loses no `switch`, no type and no error, and records nothing of a `switch` that is not so.
pub open spec fn goes(c: UnionContext, before: UnionState, after: UnionState) -> bool {
    &&& grown(before.switches, after.switches)
    &&& grown(before.types, after.types)
    &&& before.diagnostics.len() <= after.diagnostics.len()
    &&& sound(c, before) ==> sound(c, after)
}

proof fn lemma_quiet(c: UnionContext, before: UnionState, after: UnionState)
    requires
        quiet(before, after),
    ensures
        goes(c, before, after),
{
    reveal(sound);
    if sound(c, before) {
        assert forall|i: int| 0 <= i < after.switches.len() implies truthful(c, after.types, #[trigger] after.switches[i])
            && (after.diagnostics.len() == 0 ==> after.switches[i].exhaustive && distinct(after.switches[i].arms)) by {
            let fact = before.switches[i];
            assert(truthful(c, before.types, fact));
            assert(after.types[fact.operand_union.0 as int] == before.types[fact.operand_union.0 as int]);
        }
    }
}

proof fn lemma_expected_value(c: UnionContext, s: UnionState, value: &Expression, expected: TypeId, message: Seq<char>)
    ensures
        quiet(s, expected_value(c, s, value, expected, message)),
{
    reveal(objected);
    reveal(cautioned);
    reveal(retyped);
    reveal(changed);
    reveal(unsupported);
    reveal(interned);
    reveal(injected);
    reveal(try_widened);
    reveal(projected);
    reveal(type_noted);
    reveal(widened);
    reveal(narrowed_by);
    reveal(with_narrowed);
    reveal(statement_settled);
    reveal(try_noted);
    reveal(test_noted);
    reveal(retargeted);
    reveal(target_noted);
    reveal(expected_value);
}

proof fn lemma_result_value(c: UnionContext, s: UnionState, home: Home, value: &Expression)
    ensures
        quiet(s, result_value(c, s, home, value)),
{
    reveal(objected);
    reveal(cautioned);
    reveal(retyped);
    reveal(changed);
    reveal(unsupported);
    reveal(interned);
    reveal(injected);
    reveal(try_widened);
    reveal(projected);
    reveal(type_noted);
    reveal(widened);
    reveal(narrowed_by);
    reveal(with_narrowed);
    reveal(statement_settled);
    reveal(try_noted);
    reveal(test_noted);
    reveal(retargeted);
    reveal(target_noted);
    reveal(result_value);
    if let TypeState::Resolved(expected) = home.result {
        lemma_expected_value(c, s, value, expected, "unit-returning function cannot return a non-unit value"@);
        lemma_expected_value(c, s, value, expected, "return value type does not match function result type"@);
    }
}

proof fn lemma_name_typed(c: UnionContext, s: UnionState, expression: Span, name: Span)
    ensures
        quiet(s, name_typed(c, s, expression, name)),
{
    reveal(objected);
    reveal(cautioned);
    reveal(retyped);
    reveal(changed);
    reveal(unsupported);
    reveal(interned);
    reveal(injected);
    reveal(try_widened);
    reveal(projected);
    reveal(type_noted);
    reveal(widened);
    reveal(narrowed_by);
    reveal(with_narrowed);
    reveal(statement_settled);
    reveal(try_noted);
    reveal(test_noted);
    reveal(retargeted);
    reveal(target_noted);
    reveal(name_typed);
}

proof fn lemma_changed(s: UnionState, expression: Span, state: TypeState)
    ensures
        quiet(s, changed(s, expression, state)),
{
    reveal(objected);
    reveal(cautioned);
    reveal(retyped);
    reveal(changed);
    reveal(unsupported);
    reveal(interned);
    reveal(injected);
    reveal(try_widened);
    reveal(projected);
    reveal(type_noted);
    reveal(widened);
    reveal(narrowed_by);
    reveal(with_narrowed);
    reveal(statement_settled);
    reveal(try_noted);
    reveal(test_noted);
    reveal(retargeted);
    reveal(target_noted);
}

proof fn lemma_unary_typed(
    c: UnionContext,
    s: UnionState,
    expression: Span,
    operator: UnaryOperator,
    operand: TypeState,
)
    ensures
        quiet(s, unary_typed(c, s, expression, operator, operand)),
{
    reveal(objected);
    reveal(cautioned);
    reveal(retyped);
    reveal(changed);
    reveal(unsupported);
    reveal(interned);
    reveal(injected);
    reveal(try_widened);
    reveal(projected);
    reveal(type_noted);
    reveal(widened);
    reveal(narrowed_by);
    reveal(with_narrowed);
    reveal(statement_settled);
    reveal(try_noted);
    reveal(test_noted);
    reveal(retargeted);
    reveal(target_noted);
    reveal(unary_typed);
}

proof fn lemma_binary_typed(
    c: UnionContext,
    s: UnionState,
    expression: Span,
    operator: BinaryOperator,
    left: TypeState,
    right: TypeState,
)
    ensures
        quiet(s, binary_typed(c, s, expression, operator, left, right)),
{
    reveal(objected);
    reveal(cautioned);
    reveal(retyped);
    reveal(changed);
    reveal(unsupported);
    reveal(interned);
    reveal(injected);
    reveal(try_widened);
    reveal(projected);
    reveal(type_noted);
    reveal(widened);
    reveal(narrowed_by);
    reveal(with_narrowed);
    reveal(statement_settled);
    reveal(try_noted);
    reveal(test_noted);
    reveal(retargeted);
    reveal(target_noted);
    reveal(binary_typed);
}

proof fn lemma_list_typed(s: UnionState, expression: Span, elements: Seq<Expression>)
    ensures
        quiet(s, list_typed(s, expression, elements)),
{
    reveal(objected);
    reveal(cautioned);
    reveal(retyped);
    reveal(changed);
    reveal(unsupported);
    reveal(interned);
    reveal(injected);
    reveal(try_widened);
    reveal(projected);
    reveal(type_noted);
    reveal(widened);
    reveal(narrowed_by);
    reveal(with_narrowed);
    reveal(statement_settled);
    reveal(try_noted);
    reveal(test_noted);
    reveal(retargeted);
    reveal(target_noted);
    reveal(list_typed);
}

proof fn lemma_mapping_typed(s: UnionState, expression: Span, entries: Seq<MapEntry>)
    ensures
        quiet(s, mapping_typed(s, expression, entries)),
{
    reveal(objected);
    reveal(cautioned);
    reveal(retyped);
    reveal(changed);
    reveal(unsupported);
    reveal(interned);
    reveal(injected);
    reveal(try_widened);
    reveal(projected);
    reveal(type_noted);
    reveal(widened);
    reveal(narrowed_by);
    reveal(with_narrowed);
    reveal(statement_settled);
    reveal(try_noted);
    reveal(test_noted);
    reveal(retargeted);
    reveal(target_noted);
    reveal(mapping_typed);
}

proof fn lemma_choice_typed(s: UnionState, expression: Span, states: Seq<TypeState>)
    ensures
        quiet(s, choice_typed(s, expression, states)),
{
    reveal(objected);
    reveal(cautioned);
    reveal(retyped);
    reveal(changed);
    reveal(unsupported);
    reveal(interned);
    reveal(injected);
    reveal(try_widened);
    reveal(projected);
    reveal(type_noted);
    reveal(widened);
    reveal(narrowed_by);
    reveal(with_narrowed);
    reveal(statement_settled);
    reveal(try_noted);
    reveal(test_noted);
    reveal(retargeted);
    reveal(target_noted);
    reveal(choice_typed);
}

proof fn lemma_member_typed(c: UnionContext, s: UnionState, expression: Span, value: Span, member: Member)
    ensures
        quiet(s, member_typed(c, s, expression, value, member)),
{
    reveal(objected);
    reveal(cautioned);
    reveal(retyped);
    reveal(changed);
    reveal(unsupported);
    reveal(interned);
    reveal(injected);
    reveal(try_widened);
    reveal(projected);
    reveal(type_noted);
    reveal(widened);
    reveal(narrowed_by);
    reveal(with_narrowed);
    reveal(statement_settled);
    reveal(try_noted);
    reveal(test_noted);
    reveal(retargeted);
    reveal(target_noted);
    reveal(member_typed);
}

proof fn lemma_index_typed(c: UnionContext, s: UnionState, expression: Span, value: Span, index: Span)
    ensures
        quiet(s, index_typed(c, s, expression, value, index)),
{
    reveal(objected);
    reveal(cautioned);
    reveal(retyped);
    reveal(changed);
    reveal(unsupported);
    reveal(interned);
    reveal(injected);
    reveal(try_widened);
    reveal(projected);
    reveal(type_noted);
    reveal(widened);
    reveal(narrowed_by);
    reveal(with_narrowed);
    reveal(statement_settled);
    reveal(try_noted);
    reveal(test_noted);
    reveal(retargeted);
    reveal(target_noted);
    reveal(index_typed);
}

#[verifier::spinoff_prover]
proof fn lemma_label_noted(s: UnionState, label: &Type, payload: TypeId)
    ensures
        quiet(s, label_noted(s, label, payload)),
    decreases label,
{
    reveal_with_fuel(label_noted, 1);
    reveal(type_noted);
    if let TypeKind::Parenthesized(inner) = &label.kind {
        lemma_label_noted(type_noted(s, label.span, payload), inner, payload);
    }
}

proof fn lemma_named_type(c: UnionContext, s: UnionState, name: Span)
    ensures
        quiet(s, named_type(c, s, name).0),
        named_type(c, s, name).1 is None ==> named_type(c, s, name).0.diagnostics.len() > 0,
{
    reveal(named_type);
    reveal(interned);
    reveal(objected);
}

#[verifier::spinoff_prover]
proof fn lemma_label_type(c: UnionContext, s: UnionState, ty: &Type)
    ensures
        quiet(s, label_type(c, s, ty).0),
        label_type(c, s, ty).1 is None ==> label_type(c, s, ty).0.diagnostics.len() > 0,
    decreases ty, 1int,
{
    reveal_with_fuel(label_type, 1);
    reveal(type_settled);
    reveal(type_noted);
    reveal(interned);
    reveal(objected);
    match &ty.kind {
        TypeKind::Named(identifier) => lemma_named_type(c, s, identifier.span),
        TypeKind::List(element) => lemma_label_type(c, s, element),
        TypeKind::Mapping { key, value } => {
            lemma_label_type(c, s, key);
            lemma_label_type(c, label_type(c, s, key).0, value);
        },
        TypeKind::Union(alternatives) => lemma_label_alternatives(c, s, alternatives@, 0, seq![]),
        TypeKind::Parenthesized(inner) => lemma_label_type(c, s, inner),
        _ => {},
    }
}

#[verifier::spinoff_prover]
proof fn lemma_label_alternative(c: UnionContext, s: UnionState, alternative: &Type)
    ensures
        quiet(s, label_alternative(c, s, alternative).0),
    decreases alternative, 2int,
{
    reveal_with_fuel(label_alternative, 1);
    match &alternative.kind {
        TypeKind::Tagged { payload, .. } => lemma_label_type(c, s, payload),
        _ => lemma_label_type(c, s, alternative),
    }
}

#[verifier::spinoff_prover]
proof fn lemma_label_alternatives(
    c: UnionContext,
    s: UnionState,
    alternatives: Seq<Type>,
    from: int,
    resolved: Seq<AlternativeView>,
)
    ensures
        quiet(s, label_alternatives(c, s, alternatives, from, resolved).0),
    decreases alternatives, alternatives.len() - from,
{
    reveal_with_fuel(label_alternatives, 1);
    if 0 <= from < alternatives.len() {
        let (next, alternative) = label_alternative(c, s, &alternatives[from]);
        lemma_label_alternative(c, s, &alternatives[from]);
        let more = match alternative {
            Some(alternative) => resolved.push(alternative),
            None => resolved,
        };
        lemma_label_alternatives(c, next, alternatives, from + 1, more);
    }
}

proof fn lemma_first_error(alternatives: Seq<AlternativeView>, from: int)
    ensures
        first_error(alternatives, from) matches Some(found) ==> alternatives.contains(found) && found is Error,
    decreases alternatives.len() - from,
{
    if 0 <= from < alternatives.len() && !(alternatives[from] is Error) {
        lemma_first_error(alternatives, from + 1);
    }
}

proof fn lemma_first_tagged(alternatives: Seq<AlternativeView>, wanted: Seq<char>, from: int)
    ensures
        first_tagged(alternatives, wanted, from) matches Some(found) ==> alternatives.contains(found) && found is Tagged
            && found->tag == wanted,
    decreases alternatives.len() - from,
{
    if 0 <= from < alternatives.len() && !(alternatives[from] is Tagged && alternatives[from]->tag == wanted) {
        lemma_first_tagged(alternatives, wanted, from + 1);
    }
}

proof fn lemma_first_untagged(alternatives: Seq<AlternativeView>, payload: TypeId, from: int)
    ensures
        first_untagged(alternatives, payload, from) matches Some(found) ==> alternatives.contains(found) && found
            == AlternativeView::Untagged(payload),
    decreases alternatives.len() - from,
{
    if 0 <= from < alternatives.len() && alternatives[from] != AlternativeView::Untagged(payload) {
        lemma_first_untagged(alternatives, payload, from + 1);
    }
}

/// Whether a label can stand for an alternative: `Error` for the error, the tag for one with a tag, and a type for one
/// without.
pub open spec fn labels(c: UnionContext, label: &Type, style: UnionStyle, alternative: AlternativeView) -> bool {
    match &bare_type(label).kind {
        TypeKind::Named(identifier) => {
            let spelling = text_at(c.source, identifier.span);
            if spelling == "Error"@ {
                alternative is Error
            } else if style == UnionStyle::Tagged {
                alternative is Tagged && alternative->tag == spelling
            } else {
                alternative is Untagged
            }
        },
        _ => style != UnionStyle::Tagged && alternative is Untagged,
    }
}

proof fn lemma_label_rule(
    c: UnionContext,
    s: UnionState,
    label: &Type,
    style: UnionStyle,
    alternatives: Seq<AlternativeView>,
)
    ensures
        quiet(s, label_rule(c, s, label, style, alternatives).0),
        match label_rule(c, s, label, style, alternatives).1 {
            Some(alternative) => alternatives.contains(alternative) && labels(c, label, style, alternative),
            None => label_rule(c, s, label, style, alternatives).0.diagnostics.len() > 0,
        },
{
    reveal(label_rule);
    reveal(picked);
    reveal(type_label);
    reveal(objected);
    lemma_label_type(c, s, label);
    lemma_first_error(alternatives, 0);
    if let Some(ty) = label_type(c, s, label).1 {
        lemma_first_untagged(alternatives, ty, 0);
    }
    if let Some(found) = first_error(alternatives, 0) {
        lemma_label_noted(s, label, payload_of(found));
    }
    if let TypeKind::Named(identifier) = &bare_type(label).kind {
        let spelling = text_at(c.source, identifier.span);
        lemma_first_tagged(alternatives, spelling, 0);
        if let Some(found) = first_tagged(alternatives, spelling, 0) {
            lemma_label_noted(s, label, payload_of(found));
        }
    }
}

proof fn lemma_try_typed(
    c: UnionContext,
    s: UnionState,
    home: Home,
    expression: Span,
    operator: Span,
    operand: TypeState,
)
    ensures
        quiet(s, try_typed(c, s, home, expression, operator, operand)),
{
    reveal(objected);
    reveal(cautioned);
    reveal(retyped);
    reveal(changed);
    reveal(unsupported);
    reveal(interned);
    reveal(injected);
    reveal(try_widened);
    reveal(projected);
    reveal(type_noted);
    reveal(widened);
    reveal(narrowed_by);
    reveal(with_narrowed);
    reveal(statement_settled);
    reveal(try_noted);
    reveal(test_noted);
    reveal(retargeted);
    reveal(target_noted);
    reveal(try_typed);
    reveal(try_refused);
    reveal(try_success);
}

proof fn lemma_is_typed(c: UnionContext, s: UnionState, expression: Span, value: &Expression, label: &Type)
    ensures
        quiet(s, is_typed(c, s, expression, value, label)),
{
    reveal(objected);
    reveal(cautioned);
    reveal(retyped);
    reveal(changed);
    reveal(unsupported);
    reveal(interned);
    reveal(injected);
    reveal(try_widened);
    reveal(projected);
    reveal(type_noted);
    reveal(widened);
    reveal(narrowed_by);
    reveal(with_narrowed);
    reveal(statement_settled);
    reveal(try_noted);
    reveal(test_noted);
    reveal(retargeted);
    reveal(target_noted);
    reveal(is_typed);
    if let Some((operand_union, style, alternatives)) = parts(c, s, known(s, value.span)) {
        lemma_label_rule(c, s, label, style, alternatives);
    }
}

proof fn lemma_arguments_checked(
    c: UnionContext,
    s: UnionState,
    parameters: Seq<ParameterSignature>,
    arguments: Seq<Argument>,
    from: int,
    positional: int,
)
    ensures
        quiet(s, arguments_checked(c, s, parameters, arguments, from, positional)),
    decreases arguments.len() - from,
{
    reveal_with_fuel(arguments_checked, 1);
    if 0 <= from < arguments.len() {
        reveal(argument_checked);
        let expected = argument_type(c, parameters, arguments[from], positional);
        if let Some(TypeState::Resolved(ty)) = expected {
            lemma_expected_value(c, s, &passed(arguments[from]), ty, "argument type does not match parameter type"@);
        }
        let next = argument_checked(c, s, arguments[from], expected);
        if arguments[from].kind is Positional {
            lemma_arguments_checked(c, next, parameters, arguments, from + 1, positional + 1);
        } else {
            lemma_arguments_checked(c, next, parameters, arguments, from + 1, positional);
        }
    }
}

proof fn lemma_method_checked(c: UnionContext, s: UnionState, expected: Option<TypeId>, arguments: Seq<Argument>)
    ensures
        quiet(s, method_checked(c, s, expected, arguments)),
{
    reveal(objected);
    reveal(cautioned);
    reveal(retyped);
    reveal(changed);
    reveal(unsupported);
    reveal(interned);
    reveal(injected);
    reveal(try_widened);
    reveal(projected);
    reveal(type_noted);
    reveal(widened);
    reveal(narrowed_by);
    reveal(with_narrowed);
    reveal(statement_settled);
    reveal(try_noted);
    reveal(test_noted);
    reveal(retargeted);
    reveal(target_noted);
    reveal(method_checked);
    if arguments.len() > 0 {
        if let Some(ty) = expected {
            lemma_expected_value(
                c,
                s,
                &passed(arguments[0]),
                ty,
                "method argument type does not match the narrowed receiver type"@,
            );
        }
    }
}

proof fn lemma_method_typed(c: UnionContext, s: UnionState, call: Span, callee: &Expression, arguments: Seq<Argument>)
    ensures
        quiet(s, method_typed(c, s, call, callee, arguments)),
{
    reveal(objected);
    reveal(cautioned);
    reveal(retyped);
    reveal(changed);
    reveal(unsupported);
    reveal(interned);
    reveal(injected);
    reveal(try_widened);
    reveal(projected);
    reveal(type_noted);
    reveal(widened);
    reveal(narrowed_by);
    reveal(with_narrowed);
    reveal(statement_settled);
    reveal(try_noted);
    reveal(test_noted);
    reveal(retargeted);
    reveal(target_noted);
    reveal(method_typed);
    if let ExpressionKind::Member { value, member: Member::Named(name) } = &callee.kind {
        if let TypeState::Resolved(receiver) = known(s, value.span) {
            if let Some((_, expected, _)) = method_of(s, receiver, text_at(c.source, name.span)) {
                lemma_method_checked(c, s, expected, arguments);
            }
        }
    }
}

proof fn lemma_call_typed(c: UnionContext, s: UnionState, call: Span, callee: &Expression, arguments: Seq<Argument>)
    ensures
        quiet(s, call_typed(c, s, call, callee, arguments)),
{
    reveal(objected);
    reveal(cautioned);
    reveal(retyped);
    reveal(changed);
    reveal(unsupported);
    reveal(interned);
    reveal(injected);
    reveal(try_widened);
    reveal(projected);
    reveal(type_noted);
    reveal(widened);
    reveal(narrowed_by);
    reveal(with_narrowed);
    reveal(statement_settled);
    reveal(try_noted);
    reveal(test_noted);
    reveal(retargeted);
    reveal(target_noted);
    reveal(call_typed);
    lemma_method_typed(c, s, call, callee, arguments);
    if let Some(CallTarget::Callable(CallableId::Function(function))) = call_target(s, call) {
        if function.0 < c.signatures.len() {
            lemma_arguments_checked(c, s, c.signatures[function.0 as int].parameters@, arguments, 0, 0);
        }
    }
}

proof fn lemma_target_typed(c: UnionContext, s: UnionState, target: &AssignmentTarget)
    ensures
        quiet(s, target_typed(c, s, target)),
{
    reveal(objected);
    reveal(cautioned);
    reveal(retyped);
    reveal(changed);
    reveal(unsupported);
    reveal(interned);
    reveal(injected);
    reveal(try_widened);
    reveal(projected);
    reveal(type_noted);
    reveal(widened);
    reveal(narrowed_by);
    reveal(with_narrowed);
    reveal(statement_settled);
    reveal(try_noted);
    reveal(test_noted);
    reveal(retargeted);
    reveal(target_noted);
    reveal(target_typed);
}

proof fn lemma_widened_from(s: UnionState, bindings: Seq<BindingId>, from: int)
    ensures
        quiet(s, widened_from(s, bindings, from)),
    decreases bindings.len() - from,
{
    reveal(widened);
    if 0 <= from < bindings.len() {
        lemma_widened_from(widened(s, bindings[from]), bindings, from + 1);
    }
}

proof fn lemma_behind_body(c: UnionContext, s: UnionState, body: &StatementBody)
    ensures
        quiet(s, behind_body(c, s, body)),
{
    reveal(behind_body);
    lemma_widened_from(s, assigned_in_body(c, body, seq![]), 0);
}

proof fn lemma_behind_else(c: UnionContext, s: UnionState, body: &Option<StatementBody>)
    ensures
        quiet(s, behind_else(c, s, body)),
{
    reveal(behind_else);
    if let Some(body) = body {
        lemma_behind_body(c, s, body);
    }
}

proof fn lemma_behind_branches(
    c: UnionContext,
    s: UnionState,
    branches: Seq<ConditionalStatementBranch>,
    from: int,
)
    ensures
        quiet(s, behind_branches(c, s, branches, from)),
    decreases branches.len() - from,
{
    reveal_with_fuel(behind_branches, 1);
    if 0 <= from < branches.len() {
        lemma_behind_body(c, s, &branches[from].body);
        lemma_behind_branches(c, behind_body(c, s, &branches[from].body), branches, from + 1);
    }
}

proof fn lemma_behind_arms(c: UnionContext, s: UnionState, arms: Seq<SwitchArm>, from: int)
    ensures
        quiet(s, behind_arms(c, s, arms, from)),
    decreases arms.len() - from,
{
    reveal_with_fuel(behind_arms, 1);
    if 0 <= from < arms.len() {
        lemma_behind_body(c, s, &arms[from].body);
        lemma_behind_arms(c, behind_body(c, s, &arms[from].body), arms, from + 1);
    }
}

proof fn lemma_where_holds(s: UnionState, condition: &Expression)
    ensures
        quiet(s, where_holds(s, condition)),
{
    reveal(where_holds);
    reveal(narrowed_by);
}

proof fn lemma_with_narrowed(s: UnionState, narrowed: Seq<(BindingId, TypeId)>)
    ensures
        quiet(s, with_narrowed(s, narrowed)),
{
    reveal(with_narrowed);
}

proof fn lemma_behind_assignment(c: UnionContext, s: UnionState, target: &AssignmentTarget)
    ensures
        quiet(s, behind_assignment(c, s, target)),
{
    reveal(behind_assignment);
    reveal(widened);
}

proof fn lemma_local_settled(c: UnionContext, s: UnionState, statement: Span, state: TypeState)
    ensures
        quiet(s, local_settled(c, s, statement, state)),
{
    reveal(local_settled);
}

proof fn lemma_switch_refused(c: UnionContext, s: UnionState, value: Span, state: TypeState)
    ensures
        quiet(s, switch_refused(c, s, value, state)),
{
    reveal(switch_refused);
    reveal(objected);
}

/// What has been found of the arms before one: as far as no error was reported, each of them stands for an alternative
/// of its own, which its label names.
pub open spec fn told(
    c: UnionContext,
    s: UnionState,
    subject: Subject,
    arms: Seq<SwitchArm>,
    count: int,
    coverage: Coverage,
) -> bool {
    &&& tallied(subject.alternatives, coverage.covered, coverage.arms)
    &&& s.diagnostics.len() == 0 ==> {
        &&& coverage.arms.len() == count
        &&& distinct(coverage.arms)
        &&& forall|i: int|
            0 <= i < count ==> (#[trigger] coverage.arms[i]).arm == arms[i].span && labels(
                c,
                &arms[i].label,
                subject.style,
                coverage.arms[i].alternative,
            )
    }
}

#[verifier::rlimit(40)]
proof fn lemma_arm_opened(
    c: UnionContext,
    s: UnionState,
    subject: Subject,
    arms: Seq<SwitchArm>,
    index: int,
    coverage: Coverage,
)
    requires
        0 <= index < arms.len(),
        told(c, s, subject, arms, index, coverage),
    ensures
        quiet(s, arm_opened(c, s, subject, &arms[index], coverage).0),
        told(
            c,
            arm_opened(c, s, subject, &arms[index], coverage).0,
            subject,
            arms,
            index + 1,
            arm_opened(c, s, subject, &arms[index], coverage).1,
        ),
{
    reveal(arm_opened);
    reveal(with_narrowed);
    reveal(narrowed_by);
    reveal(objected);
    let arm = &arms[index];
    lemma_label_rule(c, s, &arm.label, subject.style, subject.alternatives);
    let (next, after) = arm_opened(c, s, subject, arm, coverage);
    if let Some(alternative) = label_rule(c, s, &arm.label, subject.style, subject.alternatives).1 {
        let old_arms = coverage.arms;
        let new_arms = after.arms;
        let covered = after.covered;
        assert(new_arms.len() == old_arms.len() + 1);
        assert(forall|i: int| 0 <= i < old_arms.len() ==> old_arms[i] == #[trigger] new_arms[i]);
        assert(new_arms[old_arms.len() as int].alternative == alternative);
        assert(grown(coverage.covered, covered));
        if !coverage.covered.contains(alternative) {
            assert(covered[coverage.covered.len() as int] == alternative);
        }
        assert(covered.contains(alternative));
        assert forall|i: int| 0 <= i < covered.len() implies arm_for(new_arms, #[trigger] covered[i]) by {
            if i < coverage.covered.len() {
                assert(arm_for(old_arms, coverage.covered[i]));
                let k = choose|k: int|
                    0 <= k < old_arms.len() && (#[trigger] old_arms[k]).alternative == coverage.covered[i];
                assert(new_arms[k].alternative == covered[i]);
            }
        }
        assert forall|i: int| 0 <= i < new_arms.len() implies covered.contains((#[trigger] new_arms[i]).alternative)
            && subject.alternatives.contains(new_arms[i].alternative) && new_arms[i].payload == payload_of(
            new_arms[i].alternative,
        ) by {
            if i < old_arms.len() {
                assert(coverage.covered.contains(old_arms[i].alternative));
                let k = choose|k: int|
                    0 <= k < coverage.covered.len() && coverage.covered[k] == old_arms[i].alternative;
                assert(covered[k] == new_arms[i].alternative);
            }
        }
        if next.diagnostics.len() == 0 {
            assert(s.diagnostics.len() == 0);
            assert(!coverage.covered.contains(alternative));
            assert forall|i: int, j: int| 0 <= i < j < new_arms.len() implies (#[trigger] new_arms[i]).alternative != (
            #[trigger] new_arms[j]).alternative by {
                if j == old_arms.len() {
                    assert(coverage.covered.contains(old_arms[i].alternative));
                } else {
                    assert(old_arms[i].alternative != old_arms[j].alternative);
                }
            }
        }
    }
}

proof fn lemma_uncovered(alternatives: Seq<AlternativeView>, covered: Seq<AlternativeView>, count: int)
    requires
        0 <= count <= alternatives.len(),
    ensures
        uncovered(alternatives, covered, count).len() == 0 <==> forall|i: int|
            0 <= i < count ==> covered.contains(#[trigger] alternatives[i]),
    decreases count,
{
    if count > 0 {
        lemma_uncovered(alternatives, covered, count - 1);
        if uncovered(alternatives, covered, count).len() != 0 {
            if covered.contains(alternatives[count - 1]) {
                let i = choose|i: int| 0 <= i < count - 1 && !covered.contains(#[trigger] alternatives[i]);
                assert(!covered.contains(alternatives[i]));
            }
        }
    }
}

/// A `switch` is objected to just where it has no `else` and an alternative has no arm.
#[verifier::rlimit(40)]
pub proof fn law_switch_is_exhaustive_or_refused(
    c: UnionContext,
    s: UnionState,
    statement: Span,
    operand_union: TypeId,
    subject: Subject,
    coverage: Coverage,
    else_body: Option<Span>,
)
    requires
        tallied(subject.alternatives, coverage.covered, coverage.arms),
        s.diagnostics.len() < MAX_SOURCE_ERRORS,
    ensures
        ({
            let after = switch_closed(c, s, statement, operand_union, subject, coverage, else_body);
            let complete = else_body is Some || all_covered(subject.alternatives, coverage.arms);
            &&& after.diagnostics.len() == s.diagnostics.len() + if complete {
                0int
            } else {
                1
            }
            &&& complete ==> after.diagnostics == s.diagnostics
            &&& after.switches.len() == s.switches.len() + 1
            &&& after.switches.last().exhaustive == complete
        }),
{
    lemma_closed(c, s, statement, operand_union, subject, coverage, else_body);
    reveal(switch_closed);
    reveal(objected);
    reveal(cautioned);
}

#[verifier::rlimit(40)]
proof fn lemma_closed(
    c: UnionContext,
    s: UnionState,
    statement: Span,
    operand_union: TypeId,
    subject: Subject,
    coverage: Coverage,
    else_body: Option<Span>,
)
    requires
        tallied(subject.alternatives, coverage.covered, coverage.arms),
    ensures
        ({
            let after = switch_closed(c, s, statement, operand_union, subject, coverage, else_body);
            let missing = uncovered(subject.alternatives, coverage.covered, subject.alternatives.len() as int);
            let complete = else_body is Some || all_covered(subject.alternatives, coverage.arms);
            &&& after.types == s.types
            &&& s.diagnostics.len() <= after.diagnostics.len()
            &&& !complete ==> after.diagnostics.len() > 0
            &&& missing.len() == 0 <==> all_covered(subject.alternatives, coverage.arms)
            &&& after.switches == s.switches.push(
                SwitchFact {
                    statement,
                    operand_union,
                    binding: subject.binding,
                    arms: coverage.arms,
                    covered: coverage.covered,
                    else_body,
                    exhaustive: complete,
                },
            )
        }),
{
    reveal(switch_closed);
    reveal(objected);
    reveal(cautioned);
    let alternatives = subject.alternatives;
    let covered = coverage.covered;
    let arms = coverage.arms;
    lemma_uncovered(alternatives, covered, alternatives.len() as int);
    let missing = uncovered(alternatives, covered, alternatives.len() as int);
    if missing.len() == 0 {
        assert forall|i: int| 0 <= i < alternatives.len() implies arm_for(arms, #[trigger] alternatives[i]) by {
            assert(covered.contains(alternatives[i]));
            let k = choose|k: int| 0 <= k < covered.len() && covered[k] == alternatives[i];
            assert(arm_for(arms, covered[k]));
        }
    }
    if all_covered(alternatives, arms) {
        assert forall|i: int| 0 <= i < alternatives.len() implies covered.contains(#[trigger] alternatives[i]) by {
            assert(arm_for(arms, alternatives[i]));
            let k = choose|k: int| 0 <= k < arms.len() && (#[trigger] arms[k]).alternative == alternatives[i];
            assert(covered.contains(arms[k].alternative));
        }
    }
}

#[verifier::spinoff_prover]
proof fn rule_statements(c: UnionContext, s: UnionState, home: Home, statements: Seq<Statement>, from: int)
    ensures
        goes(c, s, statements_rule(c, s, home, statements, from)),
    decreases statements, statements.len() - from,
{
    reveal_with_fuel(statements_rule, 1);
    if 0 <= from < statements.len() {
        rule_statement(c, s, home, &statements[from]);
        rule_statements(c, statement_rule(c, s, home, &statements[from]), home, statements, from + 1);
    }
}

#[verifier::spinoff_prover]
proof fn rule_suffixes(c: UnionContext, s: UnionState, home: Home, suffixes: Seq<AssignmentTargetSuffix>, from: int)
    ensures
        goes(c, s, suffixes_rule(c, s, home, suffixes, from)),
    decreases suffixes, suffixes.len() - from,
{
    reveal_with_fuel(suffixes_rule, 1);
    if 0 <= from < suffixes.len() {
        rule_suffix(c, s, home, &suffixes[from]);
        rule_suffixes(c, suffix_rule(c, s, home, &suffixes[from]), home, suffixes, from + 1);
    }
}

#[verifier::spinoff_prover]
proof fn rule_expressions(c: UnionContext, s: UnionState, home: Home, expressions: Seq<Expression>, from: int)
    ensures
        goes(c, s, expressions_rule(c, s, home, expressions, from)),
    decreases expressions, expressions.len() - from,
{
    reveal_with_fuel(expressions_rule, 1);
    if 0 <= from < expressions.len() {
        rule_expression(c, s, home, &expressions[from]);
        rule_expressions(c, expression_rule(c, s, home, &expressions[from]).0, home, expressions, from + 1);
    }
}

#[verifier::spinoff_prover]
proof fn rule_entries(c: UnionContext, s: UnionState, home: Home, entries: Seq<MapEntry>, from: int)
    ensures
        goes(c, s, entries_rule(c, s, home, entries, from)),
    decreases entries, entries.len() - from,
{
    reveal_with_fuel(entries_rule, 1);
    if 0 <= from < entries.len() {
        rule_entry(c, s, home, &entries[from]);
        rule_entries(c, entry_rule(c, s, home, &entries[from]), home, entries, from + 1);
    }
}

#[verifier::spinoff_prover]
proof fn rule_arguments(c: UnionContext, s: UnionState, home: Home, arguments: Seq<Argument>, from: int)
    ensures
        goes(c, s, arguments_rule(c, s, home, arguments, from)),
    decreases arguments, arguments.len() - from,
{
    reveal_with_fuel(arguments_rule, 1);
    if 0 <= from < arguments.len() {
        rule_argument(c, s, home, &arguments[from]);
        rule_arguments(c, argument_rule(c, s, home, &arguments[from]), home, arguments, from + 1);
    }
}

#[verifier::spinoff_prover]
proof fn rule_block(c: UnionContext, s: UnionState, home: Home, block: &Block)
    ensures
        goes(c, s, block_rule(c, s, home, block)),
    decreases block, 0int,
{
    reveal_with_fuel(block_rule, 1);
    rule_statements(c, s, home, block.statements@, 0);
    if let Some(value) = &block.value {
        rule_expression(c, statements_rule(c, s, home, block.statements@, 0), home, value);
    }
}

#[verifier::spinoff_prover]
proof fn rule_body(c: UnionContext, s: UnionState, home: Home, body: &StatementBody)
    ensures
        goes(c, s, body_rule(c, s, home, body)),
    decreases body, 0int,
{
    reveal_with_fuel(body_rule, 1);
    match &body.kind {
        StatementBodyKind::Block(block) => rule_block(c, s, home, block),
        StatementBodyKind::Statement(statement) => rule_statement(c, s, home, statement),
    }
}

#[verifier::spinoff_prover]
proof fn rule_else(c: UnionContext, s: UnionState, home: Home, body: &Option<StatementBody>)
    ensures
        goes(c, s, else_rule(c, s, home, body)),
    decreases body, 0int,
{
    reveal_with_fuel(else_rule, 1);
    if let Some(body) = body {
        rule_body(c, s, home, body);
    }
}

#[verifier::spinoff_prover]
proof fn rule_choice_body(c: UnionContext, s: UnionState, home: Home, body: &ExpressionBody)
    ensures
        goes(c, s, choice_body_rule(c, s, home, body)),
    decreases body, 0int,
{
    reveal_with_fuel(choice_body_rule, 1);
    match &body.kind {
        ExpressionBodyKind::Block(block) => rule_block(c, s, home, block),
        ExpressionBodyKind::Expression(expression) => rule_expression(c, s, home, expression),
    }
}

#[verifier::spinoff_prover]
proof fn rule_suffix(c: UnionContext, s: UnionState, home: Home, suffix: &AssignmentTargetSuffix)
    ensures
        goes(c, s, suffix_rule(c, s, home, suffix)),
    decreases suffix, 0int,
{
    reveal_with_fuel(suffix_rule, 1);
    if let AssignmentTargetSuffixKind::Index(index) = &suffix.kind {
        rule_expression(c, s, home, index);
    }
}

#[verifier::spinoff_prover]
proof fn rule_target(c: UnionContext, s: UnionState, home: Home, target: &AssignmentTarget)
    ensures
        goes(c, s, target_rule(c, s, home, target)),
    decreases target, 0int,
{
    reveal_with_fuel(target_rule, 1);
    rule_suffixes(c, s, home, target.suffixes@, 0);
    let next = suffixes_rule(c, s, home, target.suffixes@, 0);
    lemma_target_typed(c, next, target);
    lemma_quiet(c, next, target_typed(c, next, target));
}

#[verifier::spinoff_prover]
proof fn rule_branches(
    c: UnionContext,
    s: UnionState,
    home: Home,
    outer: Seq<(BindingId, TypeId)>,
    branches: Seq<ConditionalStatementBranch>,
    from: int,
)
    ensures
        goes(c, s, branches_rule(c, s, home, outer, branches, from)),
    decreases branches, branches.len() - from,
{
    reveal_with_fuel(branches_rule, 1);
    if 0 <= from < branches.len() {
        let start = with_narrowed(s, outer);
        lemma_with_narrowed(s, outer);
        lemma_quiet(c, s, start);
        rule_branch(c, start, home, &branches[from]);
        rule_branches(c, branch_rule(c, start, home, &branches[from]), home, outer, branches, from + 1);
    }
}

#[verifier::spinoff_prover]
proof fn rule_branch(c: UnionContext, s: UnionState, home: Home, branch: &ConditionalStatementBranch)
    ensures
        goes(c, s, branch_rule(c, s, home, branch)),
    decreases branch, 0int,
{
    reveal_with_fuel(branch_rule, 1);
    rule_expression(c, s, home, &branch.condition);
    let next = expression_rule(c, s, home, &branch.condition).0;
    lemma_where_holds(next, &branch.condition);
    lemma_quiet(c, next, where_holds(next, &branch.condition));
    rule_body(c, where_holds(next, &branch.condition), home, &branch.body);
}

#[verifier::spinoff_prover]
proof fn rule_choice(c: UnionContext, s: UnionState, home: Home, branch: &ConditionalExpressionBranch)
    ensures
        goes(c, s, choice_rule(c, s, home, branch)),
    decreases branch, 0int,
{
    reveal_with_fuel(choice_rule, 1);
    rule_expression(c, s, home, &branch.condition);
    let next = expression_rule(c, s, home, &branch.condition).0;
    lemma_where_holds(next, &branch.condition);
    lemma_quiet(c, next, where_holds(next, &branch.condition));
    rule_choice_body(c, where_holds(next, &branch.condition), home, &branch.body);
}

#[verifier::spinoff_prover]
proof fn rule_choices(
    c: UnionContext,
    s: UnionState,
    home: Home,
    outer: Seq<(BindingId, TypeId)>,
    branches: Seq<ConditionalExpressionBranch>,
    from: int,
    states: Seq<TypeState>,
)
    ensures
        goes(c, s, choices_rule(c, s, home, outer, branches, from, states).0),
    decreases branches, branches.len() - from,
{
    reveal_with_fuel(choices_rule, 1);
    if 0 <= from < branches.len() {
        let start = with_narrowed(s, outer);
        lemma_with_narrowed(s, outer);
        lemma_quiet(c, s, start);
        rule_choice(c, start, home, &branches[from]);
        let next = choice_rule(c, start, home, &branches[from]);
        let more = states.push(body_value(next, &branches[from].body));
        rule_choices(c, next, home, outer, branches, from + 1, more);
    }
}

#[verifier::spinoff_prover]
proof fn rule_arms(
    c: UnionContext,
    s: UnionState,
    home: Home,
    subject: Subject,
    arms: Seq<SwitchArm>,
    from: int,
    coverage: Coverage,
)
    requires
        0 <= from <= arms.len(),
        told(c, s, subject, arms, from, coverage),
    ensures
        goes(c, s, arms_rule(c, s, home, subject, arms, from, coverage).0),
        told(
            c,
            arms_rule(c, s, home, subject, arms, from, coverage).0,
            subject,
            arms,
            arms.len() as int,
            arms_rule(c, s, home, subject, arms, from, coverage).1,
        ),
    decreases arms, arms.len() - from,
{
    reveal_with_fuel(arms_rule, 1);
    if from < arms.len() {
        rule_arm(c, s, home, subject, arms, from, coverage);
        let (next, after) = arm_rule(c, s, home, subject, &arms[from], coverage);
        rule_arms(c, next, home, subject, arms, from + 1, after);
    }
}

#[verifier::spinoff_prover]
proof fn rule_arm(
    c: UnionContext,
    s: UnionState,
    home: Home,
    subject: Subject,
    arms: Seq<SwitchArm>,
    index: int,
    coverage: Coverage,
)
    requires
        0 <= index < arms.len(),
        told(c, s, subject, arms, index, coverage),
    ensures
        goes(c, s, arm_rule(c, s, home, subject, &arms[index], coverage).0),
        told(
            c,
            arm_rule(c, s, home, subject, &arms[index], coverage).0,
            subject,
            arms,
            index + 1,
            arm_rule(c, s, home, subject, &arms[index], coverage).1,
        ),
    decreases arms[index], 0int,
{
    reveal_with_fuel(arm_rule, 1);
    lemma_arm_opened(c, s, subject, arms, index, coverage);
    let (next, after) = arm_opened(c, s, subject, &arms[index], coverage);
    lemma_quiet(c, s, next);
    rule_body(c, next, home, &arms[index].body);
}

#[verifier::spinoff_prover]
proof fn rule_loose_arms(c: UnionContext, s: UnionState, home: Home, loose_arms: Seq<SwitchArm>, from: int)
    ensures
        goes(c, s, loose_arms_rule(c, s, home, loose_arms, from)),
    decreases loose_arms, loose_arms.len() - from,
{
    reveal_with_fuel(loose_arms_rule, 1);
    if 0 <= from < loose_arms.len() {
        rule_loose_arm(c, s, home, &loose_arms[from]);
        rule_loose_arms(c, loose_arm_rule(c, s, home, &loose_arms[from]), home, loose_arms, from + 1);
    }
}

#[verifier::spinoff_prover]
proof fn rule_loose_arm(c: UnionContext, s: UnionState, home: Home, arm: &SwitchArm)
    ensures
        goes(c, s, loose_arm_rule(c, s, home, arm)),
    decreases arm, 0int,
{
    reveal_with_fuel(loose_arm_rule, 1);
    rule_body(c, s, home, &arm.body);
}

/// What is found of a `switch` over a union in a program without errors: its arms stand for alternatives of the union,
/// each for another and each for the one that its label names, and without `else` there is one for every alternative.
pub open spec fn resolved_as(
    c: UnionContext,
    types: Seq<Shape>,
    style: UnionStyle,
    arms: Seq<SwitchArm>,
    fact: SwitchFact,
) -> bool {
    &&& truthful(c, types, fact)
    &&& fact.exhaustive
    &&& distinct(fact.arms)
    &&& fact.arms.len() == arms.len()
    &&& forall|i: int|
        0 <= i < arms.len() ==> (#[trigger] fact.arms[i]).arm == arms[i].span && labels(
            c,
            &arms[i].label,
            style,
            fact.arms[i].alternative,
        )
}

#[verifier::spinoff_prover]
#[verifier::rlimit(60)]
proof fn rule_switch(c: UnionContext, s: UnionState, home: Home, statement: &Statement)
    ensures
        goes(c, s, switch_rule(c, s, home, statement)),
        statement.kind matches StatementKind::Switch { value, arms, else_body } ==> {
            let seen = expression_rule(c, s, home, &value).0;
            let after = switch_rule(c, s, home, statement);
            parts(c, seen, known(seen, value.span)) matches Some((ty, style, _)) ==> {
                &&& after.switches.len() > s.switches.len()
                &&& after.switches.last().statement == statement.span
                &&& after.switches.last().operand_union == ty
                &&& after.switches.last().binding == exact(c, &value)
                &&& after.switches.last().else_body is Some == else_body is Some
                &&& after.diagnostics.len() == 0 ==> resolved_as(c, after.types, style, arms@, after.switches.last())
            }
        },
    decreases statement, 0int,
{
    reveal_with_fuel(switch_rule, 1);
    if let StatementKind::Switch { value, arms, else_body } = &statement.kind {
        rule_expression(c, s, home, value);
        let s1 = expression_rule(c, s, home, value).0;
        let state = known(s1, value.span);
        match parts(c, s1, state) {
            None => {
                let s2 = switch_refused(c, s1, value.span, state);
                lemma_switch_refused(c, s1, value.span, state);
                lemma_quiet(c, s1, s2);
                rule_loose_arms(c, s2, home, arms@, 0);
                let s3 = loose_arms_rule(c, s2, home, arms@, 0);
                rule_else(c, s3, home, else_body);
                let s4 = else_rule(c, s3, home, else_body);
                reveal(statement_settled);
                lemma_quiet(c, s4, statement_settled(s4, statement.span));
            },
            Some((operand_union, style, alternatives)) => {
                let outer = s1.narrowed;
                let subject = Subject { binding: exact(c, value), style, alternatives, outer };
                let start = Coverage { covered: seq![], arms: seq![] };
                rule_arms(c, s1, home, subject, arms@, 0, start);
                let (s2, coverage) = arms_rule(c, s1, home, subject, arms@, 0, start);
                let s3 = with_narrowed(s2, outer);
                lemma_with_narrowed(s2, outer);
                lemma_quiet(c, s2, s3);
                rule_else(c, s3, home, else_body);
                let s4 = else_rule(c, s3, home, else_body);
                let tail = match else_body {
                    Some(body) => Some(body.span),
                    None => None,
                };
                let s5 = switch_closed(c, s4, statement.span, operand_union, subject, coverage, tail);
                assert(alternatives_of(c, s1.types, operand_union) == Some(alternatives)) by {
                    reveal(parts);
                }
                lemma_alternatives_stay(c, s1.types, s4.types, operand_union);
                lemma_switch_closed(c, s4, statement.span, operand_union, subject, arms@, coverage, tail);
                let s6 = statement_settled(s5, statement.span);
                let s7 = with_narrowed(s6, outer);
                reveal(statement_settled);
                lemma_with_narrowed(s6, outer);
                lemma_behind_arms(c, s7, arms@, 0);
                let s8 = behind_arms(c, s7, arms@, 0);
                lemma_behind_else(c, s8, else_body);
                let s9 = behind_else(c, s8, else_body);
                assert(quiet(s5, s9));
                lemma_quiet(c, s5, s9);
                lemma_alternatives_stay(c, s5.types, s9.types, operand_union);
            },
        }
    }
}

proof fn lemma_alternatives_stay(c: UnionContext, before: Seq<Shape>, after: Seq<Shape>, ty: TypeId)
    requires
        grown(before, after),
        alternatives_of(c, before, ty) is Some,
    ensures
        alternatives_of(c, after, ty) == alternatives_of(c, before, ty),
{
    assert(before[ty.0 as int] == after[ty.0 as int]);
}

#[verifier::rlimit(60)]
proof fn lemma_switch_closed(
    c: UnionContext,
    s: UnionState,
    statement: Span,
    operand_union: TypeId,
    subject: Subject,
    arms: Seq<SwitchArm>,
    coverage: Coverage,
    else_body: Option<Span>,
)
    requires
        told(c, s, subject, arms, arms.len() as int, coverage),
        alternatives_of(c, s.types, operand_union) == Some(subject.alternatives),
    ensures
        ({
            let after = switch_closed(c, s, statement, operand_union, subject, coverage, else_body);
            &&& goes(c, s, after)
            &&& after.types == s.types
            &&& after.switches.len() == s.switches.len() + 1
            &&& after.switches.last().statement == statement
            &&& after.switches.last().operand_union == operand_union
            &&& after.switches.last().binding == subject.binding
            &&& after.switches.last().else_body == else_body
            &&& after.diagnostics.len() == 0 ==> resolved_as(
                c,
                after.types,
                subject.style,
                arms,
                after.switches.last(),
            )
        }),
{
    lemma_closed(c, s, statement, operand_union, subject, coverage, else_body);
    let after = switch_closed(c, s, statement, operand_union, subject, coverage, else_body);
    let fact = after.switches.last();
    assert(truthful(c, after.types, fact));
    reveal(sound);
    if sound(c, s) {
        assert forall|i: int| 0 <= i < after.switches.len() implies truthful(c, after.types, #[trigger] after.switches[i])
            && (after.diagnostics.len() == 0 ==> after.switches[i].exhaustive && distinct(after.switches[i].arms)) by {
            if i < s.switches.len() {
                assert(after.switches[i] == s.switches[i]);
            }
        }
    }
}

#[verifier::spinoff_prover]
#[verifier::rlimit(40)]
proof fn rule_statement(c: UnionContext, s: UnionState, home: Home, statement: &Statement)
    ensures
        goes(c, s, statement_rule(c, s, home, statement)),
    decreases statement, 1int,
{
    reveal_with_fuel(statement_rule, 1);
    match &statement.kind {
        StatementKind::Local { initializer, .. } => {
            rule_expression(c, s, home, initializer);
            let (next, state) = expression_rule(c, s, home, initializer);
            lemma_local_settled(c, next, statement.span, state);
            lemma_quiet(c, next, local_settled(c, next, statement.span, state));
        },
        StatementKind::Assignment { target, value, .. } => {
            rule_target(c, s, home, target);
            let next = target_rule(c, s, home, target);
            rule_expression(c, next, home, value);
            let last = expression_rule(c, next, home, value).0;
            lemma_behind_assignment(c, last, target);
            lemma_quiet(c, last, behind_assignment(c, last, target));
        },
        StatementKind::Expression(expression) => rule_expression(c, s, home, expression),
        StatementKind::Return(value) => {
            if let Some(value) = value {
                rule_expression(c, s, home, value);
                let next = expression_rule(c, s, home, value).0;
                lemma_result_value(c, next, home, value);
                lemma_quiet(c, next, result_value(c, next, home, value));
            }
        },
        StatementKind::If { branches, else_body } => {
            let outer = s.narrowed;
            rule_branches(c, s, home, outer, branches@, 0);
            let s1 = branches_rule(c, s, home, outer, branches@, 0);
            lemma_with_narrowed(s1, outer);
            lemma_quiet(c, s1, with_narrowed(s1, outer));
            rule_else(c, with_narrowed(s1, outer), home, else_body);
            let s2 = else_rule(c, with_narrowed(s1, outer), home, else_body);
            lemma_with_narrowed(s2, outer);
            lemma_behind_branches(c, with_narrowed(s2, outer), branches@, 0);
            let s3 = behind_branches(c, with_narrowed(s2, outer), branches@, 0);
            lemma_behind_else(c, s3, else_body);
            lemma_quiet(c, s2, behind_else(c, s3, else_body));
        },
        StatementKind::While { condition, body } => {
            rule_expression(c, s, home, condition);
            let s1 = expression_rule(c, s, home, condition).0;
            lemma_where_holds(s1, condition);
            lemma_quiet(c, s1, where_holds(s1, condition));
            rule_body(c, where_holds(s1, condition), home, body);
            let s2 = body_rule(c, where_holds(s1, condition), home, body);
            lemma_with_narrowed(s2, s1.narrowed);
            lemma_widened_from(with_narrowed(s2, s1.narrowed), assigned_in_body(c, body, seq![]), 0);
            lemma_quiet(
                c,
                s2,
                widened_from(with_narrowed(s2, s1.narrowed), assigned_in_body(c, body, seq![]), 0),
            );
        },
        StatementKind::For { iterable, body, .. } => {
            rule_expression(c, s, home, iterable);
            let s1 = expression_rule(c, s, home, iterable).0;
            rule_body(c, s1, home, body);
            let s2 = body_rule(c, s1, home, body);
            lemma_widened_from(s2, assigned_in_body(c, body, seq![]), 0);
            lemma_quiet(c, s2, widened_from(s2, assigned_in_body(c, body, seq![]), 0));
        },
        StatementKind::Switch { .. } => rule_switch(c, s, home, statement),
        StatementKind::Block(block) => rule_block(c, s, home, block),
        _ => {},
    }
}

#[verifier::spinoff_prover]
proof fn rule_entry(c: UnionContext, s: UnionState, home: Home, entry: &MapEntry)
    ensures
        goes(c, s, entry_rule(c, s, home, entry)),
    decreases entry, 0int,
{
    reveal_with_fuel(entry_rule, 1);
    rule_expression(c, s, home, &entry.key);
    rule_expression(c, expression_rule(c, s, home, &entry.key).0, home, &entry.value);
}

#[verifier::spinoff_prover]
proof fn rule_argument(c: UnionContext, s: UnionState, home: Home, argument: &Argument)
    ensures
        goes(c, s, argument_rule(c, s, home, argument)),
    decreases argument, 0int,
{
    reveal_with_fuel(argument_rule, 1);
    match &argument.kind {
        ArgumentKind::Positional(value) => rule_expression(c, s, home, value),
        ArgumentKind::Named { value, .. } => rule_expression(c, s, home, value),
    }
}

#[verifier::spinoff_prover]
proof fn rule_callee(c: UnionContext, s: UnionState, home: Home, callee: &Expression)
    ensures
        goes(c, s, callee_rule(c, s, home, callee)),
    decreases callee, 2int,
{
    reveal_with_fuel(callee_rule, 1);
    match &callee.kind {
        ExpressionKind::Member { value, .. } => rule_expression(c, s, home, value),
        ExpressionKind::Identifier(_) => {},
        _ => rule_expression(c, s, home, callee),
    }
}

#[verifier::spinoff_prover]
#[verifier::rlimit(60)]
proof fn rule_expression_core(c: UnionContext, s: UnionState, home: Home, e: &Expression)
    ensures
        goes(c, s, expression_core_rule(c, s, home, e)),
    decreases e, 0int,
{
    reveal_with_fuel(expression_core_rule, 1);
    match &e.kind {
        ExpressionKind::Identifier(identifier) => {
            lemma_name_typed(c, s, e.span, identifier.span);
            lemma_quiet(c, s, name_typed(c, s, e.span, identifier.span));
        },
        ExpressionKind::Parenthesized(inner) => {
            rule_expression(c, s, home, inner);
            let (last, state) = expression_rule(c, s, home, inner);
            lemma_changed(last, e.span, state);
            lemma_quiet(c, last, changed(last, e.span, state));
        },
        ExpressionKind::Conversion { operand, .. } => rule_expression(c, s, home, operand),
        ExpressionKind::Unary { operator, operand, .. } => {
            rule_expression(c, s, home, operand);
            let (last, state) = expression_rule(c, s, home, operand);
            lemma_unary_typed(c, last, e.span, *operator, state);
            lemma_quiet(c, last, unary_typed(c, last, e.span, *operator, state));
        },
        ExpressionKind::Try { value, operator_span } => {
            rule_expression(c, s, home, value);
            let (last, state) = expression_rule(c, s, home, value);
            lemma_try_typed(c, last, home, e.span, *operator_span, state);
            lemma_quiet(c, last, try_typed(c, last, home, e.span, *operator_span, state));
        },
        ExpressionKind::List(elements) => {
            rule_expressions(c, s, home, elements@, 0);
            let last = expressions_rule(c, s, home, elements@, 0);
            lemma_list_typed(last, e.span, elements@);
            lemma_quiet(c, last, list_typed(last, e.span, elements@));
        },
        ExpressionKind::Mapping(entries) => {
            rule_entries(c, s, home, entries@, 0);
            let last = entries_rule(c, s, home, entries@, 0);
            lemma_mapping_typed(last, e.span, entries@);
            lemma_quiet(c, last, mapping_typed(last, e.span, entries@));
        },
        ExpressionKind::Block(block) => {
            rule_block(c, s, home, block);
            let last = block_rule(c, s, home, block);
            lemma_changed(last, e.span, block_value(last, block));
            lemma_quiet(c, last, changed(last, e.span, block_value(last, block)));
        },
        ExpressionKind::If { branches, else_branch } => {
            let outer = s.narrowed;
            rule_choices(c, s, home, outer, branches@, 0, seq![]);
            let (s1, states) = choices_rule(c, s, home, outer, branches@, 0, seq![]);
            lemma_with_narrowed(s1, outer);
            lemma_quiet(c, s1, with_narrowed(s1, outer));
            rule_choice_body(c, with_narrowed(s1, outer), home, else_branch);
            let last = choice_body_rule(c, with_narrowed(s1, outer), home, else_branch);
            let all = states.push(body_value(last, else_branch));
            lemma_with_narrowed(last, outer);
            lemma_choice_typed(with_narrowed(last, outer), e.span, all);
            lemma_quiet(c, last, choice_typed(with_narrowed(last, outer), e.span, all));
        },
        ExpressionKind::Binary { left, operator, right, .. } => {
            rule_expression(c, s, home, left);
            let (s1, first) = expression_rule(c, s, home, left);
            rule_expression(c, s1, home, right);
            let (last, second) = expression_rule(c, s1, home, right);
            lemma_binary_typed(c, last, e.span, *operator, first, second);
            lemma_quiet(c, last, binary_typed(c, last, e.span, *operator, first, second));
        },
        ExpressionKind::Is { value, ty, .. } => {
            rule_expression(c, s, home, value);
            let last = expression_rule(c, s, home, value).0;
            lemma_is_typed(c, last, e.span, value, ty);
            lemma_quiet(c, last, is_typed(c, last, e.span, value, ty));
        },
        ExpressionKind::Call { callee, arguments } => {
            rule_callee(c, s, home, callee);
            let s1 = if call_target(s, e.span) matches Some(CallTarget::QualifiedConstructor(_)) {
                s
            } else {
                callee_rule(c, s, home, callee)
            };
            rule_arguments(c, s1, home, arguments@, 0);
            let last = arguments_rule(c, s1, home, arguments@, 0);
            lemma_call_typed(c, last, e.span, callee, arguments@);
            lemma_quiet(c, last, call_typed(c, last, e.span, callee, arguments@));
        },
        ExpressionKind::Index { value, index } => {
            rule_expression(c, s, home, value);
            let s1 = expression_rule(c, s, home, value).0;
            rule_expression(c, s1, home, index);
            let last = expression_rule(c, s1, home, index).0;
            lemma_index_typed(c, last, e.span, value.span, index.span);
            lemma_quiet(c, last, index_typed(c, last, e.span, value.span, index.span));
        },
        ExpressionKind::Member { value, member } => {
            rule_expression(c, s, home, value);
            let last = expression_rule(c, s, home, value).0;
            lemma_member_typed(c, last, e.span, value.span, *member);
            lemma_quiet(c, last, member_typed(c, last, e.span, value.span, *member));
        },
        _ => {},
    }
}

#[verifier::spinoff_prover]
proof fn rule_expression(c: UnionContext, s: UnionState, home: Home, e: &Expression)
    ensures
        goes(c, s, expression_rule(c, s, home, e).0),
    decreases e, 1int,
{
    reveal_with_fuel(expression_rule, 1);
    rule_expression_core(c, s, home, e);
}

proof fn rule_function(c: UnionContext, s: UnionState, signature: FunctionSignature)
    ensures
        goes(c, s, function_rule(c, s, signature)),
{
    reveal(function_rule);
    let home = Home { function: signature.id, name: signature.node.name.span, result: signature.result };
    let start = with_narrowed(s, seq![]);
    lemma_with_narrowed(s, seq![]);
    lemma_quiet(c, s, start);
    rule_block(c, start, home, &signature.node.body);
    if let Some(value) = &signature.node.body.value {
        let last = block_rule(c, start, home, &signature.node.body);
        lemma_result_value(c, last, home, value);
        lemma_quiet(c, last, result_value(c, last, home, value));
    }
}

proof fn rule_functions(c: UnionContext, s: UnionState, from: int)
    ensures
        goes(c, s, functions_rule(c, s, from)),
    decreases c.signatures.len() - from,
{
    if 0 <= from < c.signatures.len() {
        rule_function(c, s, c.signatures[from]);
        rule_functions(c, function_rule(c, s, c.signatures[from]), from + 1);
    }
}

/// A `switch` over a union, wherever it stands in a program without errors, is resolved to alternatives of the union of
/// its operand, and covers all of them or has an `else`.
pub proof fn law_switch_covers_its_union(c: UnionContext, s: UnionState, home: Home, statement: &Statement)
    ensures
        statement.kind matches StatementKind::Switch { value, arms, else_body } ==> {
            let seen = expression_rule(c, s, home, &value).0;
            let after = switch_rule(c, s, home, statement);
            parts(c, seen, known(seen, value.span)) matches Some((ty, style, _)) ==> {
                &&& after.switches.len() > s.switches.len()
                &&& after.switches.last().statement == statement.span
                &&& after.switches.last().operand_union == ty
                &&& after.switches.last().binding == exact(c, &value)
                &&& after.switches.last().else_body is Some == else_body is Some
                &&& after.diagnostics.len() == 0 ==> resolved_as(c, after.types, style, arms@, after.switches.last())
            }
        },
{
    rule_switch(c, s, home, statement);
}

proof fn lemma_place_judged(
    analysis: &Analysis,
    s: MutabilityState,
    subject: MutabilitySubject,
    e: &Expression,
    operation: MutabilityOperation,
)
    ensures
        place_judged(analysis, s, subject, e, operation).diagnostics.len() >= s.diagnostics.len(),
{
    reveal(place_judged);
    reveal(asked);
    reveal(granted);
    reveal(denied);
    reveal(postponed);
}

proof fn lemma_arguments_judged(
    analysis: &Analysis,
    s: MutabilityState,
    call: Span,
    function: FunctionId,
    parameters: Seq<ParameterSignature>,
    arguments: Seq<Argument>,
    from: int,
)
    ensures
        arguments_judged(analysis, s, call, function, parameters, arguments, from).diagnostics.len()
            >= s.diagnostics.len(),
    decreases arguments.len() - from,
{
    reveal_with_fuel(arguments_judged, 1);
    if 0 <= from < arguments.len() && from < parameters.len() {
        reveal(argument_judged);
        lemma_place_judged(
            analysis,
            s,
            MutabilitySubject::Argument { call, argument: arguments[from].span },
            &passed(arguments[from]),
            MutabilityOperation::MutableArgument { function, parameter: parameters[from].binding },
        );
        let next = argument_judged(analysis, s, call, function, parameters[from], arguments[from]);
        lemma_arguments_judged(analysis, next, call, function, parameters, arguments, from + 1);
    }
}

proof fn lemma_call_judged(analysis: &Analysis, s: MutabilityState, visits: Seq<Visit>, resolution: CallResolution)
    ensures
        call_rule(analysis, s, visits, resolution).diagnostics.len() >= s.diagnostics.len(),
{
    reveal(call_rule);
    reveal(call_judged);
    reveal(unknown_method);
    reveal(asked);
    reveal(postponed);
    if let Some(e) = call_at(visits, resolution.node, 0) {
        if let ExpressionKind::Call { callee, arguments } = &e.kind {
            if let CallTarget::Callable(CallableId::Function(function)) = resolution.target {
                if function.0 < analysis.function_signatures@.len() {
                    lemma_arguments_judged(
                        analysis,
                        s,
                        resolution.node,
                        function,
                        analysis.function_signatures@[function.0 as int].parameters@,
                        arguments@,
                        0,
                    );
                }
            }
            if let ExpressionKind::Member { value, .. } = &callee.kind {
                if let CallTarget::Builtin(method) = resolution.target {
                    lemma_place_judged(
                        analysis,
                        s,
                        MutabilitySubject::Receiver { call: resolution.node, receiver: value.span },
                        value,
                        MutabilityOperation::MutateReceiver(method),
                    );
                }
            }
        }
    }
}

proof fn lemma_calls_judged(analysis: &Analysis, s: MutabilityState, visits: Seq<Visit>, from: int)
    ensures
        calls_rule(analysis, s, visits, from).diagnostics.len() >= s.diagnostics.len(),
    decreases analysis.calls@.len() - from,
{
    if 0 <= from < analysis.calls@.len() {
        lemma_call_judged(analysis, s, visits, analysis.calls@[from]);
        lemma_calls_judged(analysis, call_rule(analysis, s, visits, analysis.calls@[from]), visits, from + 1);
    }
}

proof fn lemma_assignments_judged(analysis: &Analysis, s: MutabilityState, visits: Seq<Visit>, from: int)
    ensures
        assignments_rule(analysis, s, visits, from).diagnostics.len() >= s.diagnostics.len(),
    decreases visits.len() - from,
{
    if 0 <= from < visits.len() {
        reveal(assignment_rule);
        reveal(assignment_judged);
        reveal(asked);
        reveal(granted);
        reveal(denied);
        reveal(postponed);
        let next = match visits[from].node {
            Node::Statement(statement) => match &statement.kind {
                StatementKind::Assignment { target, .. } => assignment_rule(analysis, s, target),
                _ => s,
            },
            _ => s,
        };
        assert(next.diagnostics.len() >= s.diagnostics.len());
        lemma_assignments_judged(analysis, next, visits, from + 1);
    }
}

proof fn lemma_mutability(analysis: &Analysis, diagnostics: Seq<DiagnosticView>)
    ensures
        mutability_rule(analysis, diagnostics).diagnostics.len() >= diagnostics.len(),
{
    let s = MutabilityState { diagnostics, rights: seq![], deferred: seq![], subjects: seq![] };
    let visits = program_visits(analysis.program);
    lemma_assignments_judged(analysis, s, visits, 0);
    lemma_calls_judged(analysis, assignments_rule(analysis, s, visits, 0), visits, 0);
}

/// In a program without errors every `switch` over a union covers it: without `else`, each alternative of the union is
/// covered, by just one arm.
pub proof fn law_accepted_switches_are_exhaustive<'a>(
    before: &Analysis<'a>,
    middle: &Analysis<'a>,
    after: &Analysis<'a>,
    result: &SemanticResult,
    index: int,
)
    requires
        analyzed(before, middle, after, result),
        result.diagnostics@.len() == 0,
        0 <= index < result.switches@.len(),
    ensures
        ({
            let fact = result.switches@[index]@;
            let alternatives = alternatives_of(
                union_context(before),
                shapes(middle.types.entries@),
                fact.operand_union,
            );
            &&& alternatives is Some
            &&& fact.else_body is None ==> forall|i: int|
                0 <= i < alternatives->0.len() ==> fact.covered.contains(#[trigger] alternatives->0[i]) && arm_for(
                    fact.arms,
                    alternatives->0[i],
                )
            &&& distinct(fact.arms)
            &&& fact.exhaustive
            &&& tallied(alternatives->0, fact.covered, fact.arms)
        }),
{
    let c = union_context(before);
    let u = after_unions(before);
    let start = before_unions(before);
    assert(sound(c, start)) by {
        reveal(sound);
    }
    rule_functions(c, start, 0);
    let m = mutability_rule(middle, u.diagnostics);
    lemma_mutability(middle, u.diagnostics);
    lemma_flow_keeps_errors(
        flow_context(middle, result.switches@, result.tries@),
        before_flow(middle, m.diagnostics, u.warnings),
        middle.function_signatures@,
    );
    assert(u.diagnostics.len() == 0);
    reveal(sound);
    assert(switch_facts(result.switches@)[index] == result.switches@[index]@);
    let fact = u.switches[index];
    assert(truthful(c, u.types, fact));
    let alternatives = alternatives_of(c, u.types, fact.operand_union)->0;
    if fact.else_body is None {
        assert(all_covered(alternatives, fact.arms));
        assert forall|i: int| 0 <= i < alternatives.len() implies fact.covered.contains(#[trigger] alternatives[i])
            && arm_for(fact.arms, alternatives[i]) by {
            assert(arm_for(fact.arms, alternatives[i]));
            let k = choose|k: int|
                0 <= k < fact.arms.len() && (#[trigger] fact.arms[k]).alternative == alternatives[i];
            assert(fact.covered.contains(fact.arms[k].alternative));
        }
    }
}

} // verus!
