//! How the parts of a program are looked at in turn while union syntax is resolved.

use crate::analysis::{
    AlternativeView, BindingId, BindingNode, BindingType, CallTarget, FunctionSignature, TypeId, TypeState,
    UnionStyle, latest, payload_of,
};
use crate::ast::{
    Argument, ArgumentKind, AssignmentTarget, AssignmentTargetSuffix, AssignmentTargetSuffixKind, Block,
    ConditionalExpressionBranch, ConditionalStatementBranch, Expression, ExpressionBody, ExpressionBodyKind,
    ExpressionKind, MapEntry, PrimitiveType, Statement, StatementBody, StatementBodyKind, StatementKind,
    SwitchArm,
};
use crate::lowering::rules::text_at;
use crate::semantic::flow_rules::introduced_from;
use crate::semantic::union_labels::{call_target, call_typed, is_typed, label_rule, target_typed, try_typed};
use crate::semantic::union_rules::{
    ArmFact, Home, Shape, SwitchFact, UnionContext, UnionState, binary_typed, block_value, body_value, bound,
    cautioned, changed, choice_typed, exact, index_typed, known, list_typed, mapping_typed, member_typed,
    name_typed, narrowed_by, objected, parts, result_value, statement_settled, unary_typed, where_holds,
    widened, widened_from, with_narrowed,
};
use crate::source::Span;
use vstd::prelude::*;

verus! {

/// A list of bindings with one more, if it is new.
pub open spec fn with_binding(bindings: Seq<BindingId>, binding: Option<BindingId>) -> Seq<BindingId> {
    match binding {
        Some(binding) => if bindings.contains(binding) {
            bindings
        } else {
            bindings.push(binding)
        },
        None => bindings,
    }
}

/// The bindings that statements from one on assign to as a whole.
#[verifier::opaque]
pub open spec fn assigned_in_statements(
    c: UnionContext,
    statements: Seq<Statement>,
    from: int,
    out: Seq<BindingId>,
) -> Seq<
    BindingId,
>
    decreases statements, statements.len() - from,
{
    if from < 0 || from >= statements.len() {
        out
    } else {
        assigned_in_statements(c, statements, from + 1, assigned_in_statement(c, &statements[from], out))
    }
}

#[verifier::opaque]
pub open spec fn assigned_in_body(c: UnionContext, body: &StatementBody, out: Seq<BindingId>) -> Seq<BindingId>
    decreases body, 0int,
{
    match &body.kind {
        StatementBodyKind::Block(block) => assigned_in_statements(c, block.statements@, 0, out),
        StatementBodyKind::Statement(statement) => assigned_in_statement(c, statement, out),
    }
}

#[verifier::opaque]
pub open spec fn assigned_in_else(c: UnionContext, body: &Option<StatementBody>, out: Seq<BindingId>) -> Seq<BindingId>
    decreases body, 0int,
{
    match body {
        Some(body) => assigned_in_body(c, body, out),
        None => out,
    }
}

#[verifier::opaque]
pub open spec fn assigned_in_branches(
    c: UnionContext,
    branches: Seq<ConditionalStatementBranch>,
    from: int,
    out: Seq<BindingId>,
) -> Seq<
    BindingId,
>
    decreases branches, branches.len() - from,
{
    if from < 0 || from >= branches.len() {
        out
    } else {
        assigned_in_branches(c, branches, from + 1, assigned_in_body(c, &branches[from].body, out))
    }
}

#[verifier::opaque]
pub open spec fn assigned_in_arms(
    c: UnionContext,
    arms: Seq<SwitchArm>,
    from: int,
    out: Seq<BindingId>,
) -> Seq<BindingId>
    decreases arms, arms.len() - from,
{
    if from < 0 || from >= arms.len() {
        out
    } else {
        assigned_in_arms(c, arms, from + 1, assigned_in_body(c, &arms[from].body, out))
    }
}

#[verifier::opaque]
pub open spec fn assigned_in_statement(c: UnionContext, statement: &Statement, out: Seq<BindingId>) -> Seq<BindingId>
    decreases statement, 0int,
{
    match &statement.kind {
        StatementKind::Assignment { target, .. } => if target.suffixes@.len() == 0 {
            with_binding(out, bound(c, target.root.span))
        } else {
            out
        },
        StatementKind::If { branches, else_body } => assigned_in_else(
            c,
            else_body,
            assigned_in_branches(c, branches@, 0, out),
        ),
        StatementKind::While { body, .. } => assigned_in_body(c, body, out),
        StatementKind::For { body, .. } => assigned_in_body(c, body, out),
        StatementKind::Switch { arms, else_body, .. } => assigned_in_else(
            c,
            else_body,
            assigned_in_arms(c, arms@, 0, out),
        ),
        StatementKind::Block(block) => assigned_in_statements(c, block.statements@, 0, out),
        _ => out,
    }
}

/// Whether control may get to the end of a body, by its shape alone.
pub open spec fn body_may_end(body: &StatementBody) -> bool
    decreases body, 0int,
{
    match &body.kind {
        StatementBodyKind::Block(block) => statements_may_end(block.statements@, 0),
        StatementBodyKind::Statement(statement) => statement_may_end(statement),
    }
}

/// Whether control may get past all statements from one on.
#[verifier::opaque]
pub open spec fn statements_may_end(statements: Seq<Statement>, from: int) -> bool
    decreases statements, statements.len() - from,
{
    if from < 0 || from >= statements.len() {
        true
    } else {
        statement_may_end(&statements[from]) && statements_may_end(statements, from + 1)
    }
}

#[verifier::opaque]
pub open spec fn branches_may_end(branches: Seq<ConditionalStatementBranch>, from: int) -> bool
    decreases branches, branches.len() - from,
{
    if from < 0 || from >= branches.len() {
        false
    } else {
        body_may_end(&branches[from].body) || branches_may_end(branches, from + 1)
    }
}

#[verifier::opaque]
pub open spec fn statement_may_end(statement: &Statement) -> bool
    decreases statement, 0int,
{
    match &statement.kind {
        StatementKind::Return(_) => false,
        StatementKind::Break => false,
        StatementKind::Continue => false,
        StatementKind::Block(block) => statements_may_end(block.statements@, 0),
        StatementKind::If { branches, else_body: Some(else_body) } => branches_may_end(branches@, 0) || body_may_end(
            else_body,
        ),
        _ => true,
    }
}

/// Behind a body: what it assigns is no longer narrowed, unless control never gets to its end.
#[verifier::opaque]
pub open spec fn behind_body(c: UnionContext, s: UnionState, body: &StatementBody) -> UnionState {
    if body_may_end(body) {
        widened_from(s, assigned_in_body(c, body, seq![]), 0)
    } else {
        s
    }
}

#[verifier::opaque]
pub open spec fn behind_else(c: UnionContext, s: UnionState, body: &Option<StatementBody>) -> UnionState {
    match body {
        Some(body) => behind_body(c, s, body),
        None => s,
    }
}

/// Behind the branches from one on.
#[verifier::opaque]
pub open spec fn behind_branches(
    c: UnionContext,
    s: UnionState,
    branches: Seq<ConditionalStatementBranch>,
    from: int,
) -> UnionState
    decreases branches.len() - from,
{
    if from < 0 || from >= branches.len() {
        s
    } else {
        behind_branches(c, behind_body(c, s, &branches[from].body), branches, from + 1)
    }
}

/// Behind the arms from one on.
#[verifier::opaque]
pub open spec fn behind_arms(c: UnionContext, s: UnionState, arms: Seq<SwitchArm>, from: int) -> UnionState
    decreases arms.len() - from,
{
    if from < 0 || from >= arms.len() {
        s
    } else {
        behind_arms(c, behind_body(c, s, &arms[from].body), arms, from + 1)
    }
}

/// A local whose type was open gets the type of its initializer.
#[verifier::opaque]
pub open spec fn local_settled(c: UnionContext, s: UnionState, statement: Span, state: TypeState) -> UnionState {
    match introduced_from(c.bindings, BindingNode::Local(statement), 0) {
        Some(binding) => if binding.0 < s.binding_types.len() && s.binding_types[binding.0 as int].state is Deferred
            && state is Resolved {
            UnionState {
                binding_types: s.binding_types.update(
                    binding.0 as int,
                    BindingType { binding: s.binding_types[binding.0 as int].binding, state },
                ),
                ..s
            }
        } else {
            s
        },
        None => s,
    }
}

/// Behind an assignment: a binding that is assigned as a whole is no longer narrowed.
#[verifier::opaque]
pub open spec fn behind_assignment(c: UnionContext, s: UnionState, target: &AssignmentTarget) -> UnionState {
    if target.suffixes@.len() == 0 {
        match bound(c, target.root.span) {
            Some(binding) => widened(s, binding),
            None => s,
        }
    } else {
        s
    }
}

/// What the arms of a `switch` have been found to cover.
#[verifier::ext_equal]
pub struct Coverage {
    pub covered: Seq<AlternativeView>,
    pub arms: Seq<ArmFact>,
}

/// What a `switch` is over.
pub struct Subject {
    pub binding: Option<BindingId>,
    pub style: UnionStyle,
    pub alternatives: Seq<AlternativeView>,
    pub outer: Seq<(BindingId, TypeId)>,
}

/// An arm before its body.
#[verifier::opaque]
pub open spec fn arm_opened(c: UnionContext, s: UnionState, subject: Subject, arm: &SwitchArm, coverage: Coverage) -> (
    UnionState,
    Coverage,
) {
    let (s, selected) = label_rule(c, s, &arm.label, subject.style, subject.alternatives);
    let s = with_narrowed(s, subject.outer);
    match selected {
        None => (s, coverage),
        Some(alternative) => {
            let payload = payload_of(alternative);
            let arms = coverage.arms.push(ArmFact { arm: arm.span, alternative, payload });
            let s = match subject.binding {
                Some(binding) => narrowed_by(s, binding, payload),
                None => s,
            };
            if coverage.covered.contains(alternative) {
                (
                    objected(c, s, arm.label.span, "switch alternative is covered more than once"@),
                    Coverage { arms, ..coverage },
                )
            } else {
                (s, Coverage { covered: coverage.covered.push(alternative), arms })
            }
        },
    }
}

/// The alternatives among the first `count` that are not covered.
pub open spec fn uncovered(alternatives: Seq<AlternativeView>, covered: Seq<AlternativeView>, count: int) -> Seq<
    AlternativeView,
>
    decreases count,
{
    if count <= 0 {
        seq![]
    } else if covered.contains(alternatives[count - 1]) {
        uncovered(alternatives, covered, count - 1)
    } else {
        uncovered(alternatives, covered, count - 1).push(alternatives[count - 1])
    }
}

/// The name of a type.
pub open spec fn type_title(c: UnionContext, types: Seq<Shape>, ty: TypeId) -> Seq<char> {
    title_within(c, types, ty, types.len())
}

/// The name of a type whose components are nested at most `depth` deep, as those of every type are that is no part
/// of itself where `depth` is the number of types.
pub open spec fn title_within(c: UnionContext, types: Seq<Shape>, ty: TypeId, depth: nat) -> Seq<char>
    decreases depth,
{
    if ty.0 >= types.len() {
        seq![]
    } else {
        match types[ty.0 as int] {
            Shape::Unit => "()"@,
            Shape::Primitive(PrimitiveType::Int) => "int"@,
            Shape::Primitive(PrimitiveType::Float) => "float"@,
            Shape::Primitive(PrimitiveType::Str) => "str"@,
            Shape::Primitive(PrimitiveType::Bool) => "bool"@,
            Shape::Primitive(PrimitiveType::Char) => "char"@,
            Shape::Nominal(declaration) => if declaration.0 < c.definitions.len() {
                text_at(c.source, c.definitions[declaration.0 as int].node.name.span)
            } else {
                seq![]
            },
            Shape::List(element) => if depth > 0 {
                "["@ + title_within(c, types, element, (depth - 1) as nat) + "]"@
            } else {
                seq![]
            },
            Shape::Mapping { key, value } => if depth > 0 {
                "{"@ + title_within(c, types, key, (depth - 1) as nat) + ": "@ + title_within(
                    c,
                    types,
                    value,
                    (depth - 1) as nat,
                ) + "}"@
            } else {
                seq![]
            },
            Shape::Union(_) => "union"@,
        }
    }
}

/// Whether no type is part of itself: each ranks above the types that it is made of, and below their number.
pub open spec fn grounded(types: Seq<Shape>, rank: spec_fn(TypeId) -> nat) -> bool {
    forall|ty: TypeId|
        ty.0 < types.len() ==> #[trigger] rank(ty) < types.len() && match types[ty.0 as int] {
            Shape::List(element) => element.0 < types.len() ==> rank(element) < rank(ty),
            Shape::Mapping { key, value } => (key.0 < types.len() ==> rank(key) < rank(ty)) && (value.0 < types.len()
                ==> rank(value) < rank(ty)),
            _ => true,
        }
}

/// Where no type is part of itself, the name of a type is whole: more depth would not change it.
pub proof fn law_names_are_whole(
    c: UnionContext,
    types: Seq<Shape>,
    rank: spec_fn(TypeId) -> nat,
    ty: TypeId,
    depth: nat,
)
    requires
        grounded(types, rank),
        depth >= types.len(),
    ensures
        title_within(c, types, ty, depth) == type_title(c, types, ty),
{
    if ty.0 < types.len() {
        assert(rank(ty) < types.len());
        lemma_deep_enough(c, types, rank, ty, depth, types.len());
    }
}

proof fn lemma_deep_enough(
    c: UnionContext,
    types: Seq<Shape>,
    rank: spec_fn(TypeId) -> nat,
    ty: TypeId,
    left: nat,
    right: nat,
)
    requires
        grounded(types, rank),
        ty.0 < types.len() ==> rank(ty) < left && rank(ty) < right,
    ensures
        title_within(c, types, ty, left) == title_within(c, types, ty, right),
    decreases left,
{
    if ty.0 < types.len() {
        assert(rank(ty) < types.len());
        match types[ty.0 as int] {
            Shape::List(element) => {
                lemma_deep_enough(c, types, rank, element, (left - 1) as nat, (right - 1) as nat);
            },
            Shape::Mapping { key, value } => {
                lemma_deep_enough(c, types, rank, key, (left - 1) as nat, (right - 1) as nat);
                lemma_deep_enough(c, types, rank, value, (left - 1) as nat, (right - 1) as nat);
            },
            _ => {},
        }
    }
}

/// The name of an alternative.
pub open spec fn alternative_title(c: UnionContext, types: Seq<Shape>, alternative: AlternativeView) -> Seq<char> {
    match alternative {
        AlternativeView::Tagged { tag, .. } => tag,
        AlternativeView::Error(_) => "Error"@,
        AlternativeView::Untagged(ty) => type_title(c, types, ty),
    }
}

/// The names of the first `count` alternatives, with commas between them.
pub open spec fn titles(c: UnionContext, types: Seq<Shape>, alternatives: Seq<AlternativeView>, count: int) -> Seq<char>
    decreases count,
{
    if count <= 0 {
        seq![]
    } else if count == 1 {
        alternative_title(c, types, alternatives[0])
    } else {
        titles(c, types, alternatives, count - 1) + ", "@ + alternative_title(c, types, alternatives[count - 1])
    }
}

/// A `switch` whose arms have been looked at.
#[verifier::opaque]
pub open spec fn switch_closed(
    c: UnionContext,
    s: UnionState,
    statement: Span,
    operand_union: TypeId,
    subject: Subject,
    coverage: Coverage,
    else_body: Option<Span>,
) -> UnionState {
    let missing = uncovered(subject.alternatives, coverage.covered, subject.alternatives.len() as int);
    let s = match else_body {
        None => if missing.len() > 0 {
            objected(
                c,
                s,
                statement,
                "non-exhaustive switch; missing: "@ + titles(c, s.types, missing, missing.len() as int),
            )
        } else {
            s
        },
        Some(body) => if missing.len() == 0 {
            cautioned(c, s, body)
        } else {
            s
        },
    };
    UnionState {
        switches: s.switches.push(
            SwitchFact {
                statement,
                operand_union,
                binding: subject.binding,
                arms: coverage.arms,
                covered: coverage.covered,
                else_body,
                exhaustive: else_body is Some || missing.len() == 0,
            },
        ),
        ..s
    }
}

/// A `switch` over something else than a union.
#[verifier::opaque]
pub open spec fn switch_refused(c: UnionContext, s: UnionState, value: Span, state: TypeState) -> UnionState {
    if state is Error || state is Never {
        s
    } else {
        objected(c, s, value, "switch operand must have a union type"@)
    }
}

/// Statements from one on.
#[verifier::opaque]
pub open spec fn statements_rule(
    c: UnionContext,
    s: UnionState,
    home: Home,
    statements: Seq<Statement>,
    from: int,
) -> UnionState
    decreases statements, statements.len() - from,
{
    if from < 0 || from >= statements.len() {
        s
    } else {
        statements_rule(c, statement_rule(c, s, home, &statements[from]), home, statements, from + 1)
    }
}

#[verifier::opaque]
pub open spec fn block_rule(c: UnionContext, s: UnionState, home: Home, block: &Block) -> UnionState
    decreases block, 0int,
{
    let s = statements_rule(c, s, home, block.statements@, 0);
    match &block.value {
        Some(value) => expression_rule(c, s, home, value).0,
        None => s,
    }
}

#[verifier::opaque]
pub open spec fn body_rule(c: UnionContext, s: UnionState, home: Home, body: &StatementBody) -> UnionState
    decreases body, 0int,
{
    match &body.kind {
        StatementBodyKind::Block(block) => block_rule(c, s, home, block),
        StatementBodyKind::Statement(statement) => statement_rule(c, s, home, statement),
    }
}

#[verifier::opaque]
pub open spec fn else_rule(c: UnionContext, s: UnionState, home: Home, body: &Option<StatementBody>) -> UnionState
    decreases body, 0int,
{
    match body {
        Some(body) => body_rule(c, s, home, body),
        None => s,
    }
}

#[verifier::opaque]
pub open spec fn choice_body_rule(c: UnionContext, s: UnionState, home: Home, body: &ExpressionBody) -> UnionState
    decreases body, 0int,
{
    match &body.kind {
        ExpressionBodyKind::Block(block) => block_rule(c, s, home, block),
        ExpressionBodyKind::Expression(expression) => expression_rule(c, s, home, expression).0,
    }
}

/// The indices of an assignment target from one on.
#[verifier::opaque]
pub open spec fn suffixes_rule(
    c: UnionContext,
    s: UnionState,
    home: Home,
    suffixes: Seq<AssignmentTargetSuffix>,
    from: int,
) -> UnionState
    decreases suffixes, suffixes.len() - from,
{
    if from < 0 || from >= suffixes.len() {
        s
    } else {
        suffixes_rule(c, suffix_rule(c, s, home, &suffixes[from]), home, suffixes, from + 1)
    }
}

#[verifier::opaque]
pub open spec fn suffix_rule(c: UnionContext, s: UnionState, home: Home, suffix: &AssignmentTargetSuffix) -> UnionState
    decreases suffix, 0int,
{
    match &suffix.kind {
        AssignmentTargetSuffixKind::Index(index) => expression_rule(c, s, home, index).0,
        AssignmentTargetSuffixKind::Member(_) => s,
    }
}

#[verifier::opaque]
pub open spec fn target_rule(c: UnionContext, s: UnionState, home: Home, target: &AssignmentTarget) -> UnionState
    decreases target, 0int,
{
    target_typed(c, suffixes_rule(c, s, home, target.suffixes@, 0), target)
}

/// The branches of an `if` statement from one on, each where its condition holds.
#[verifier::opaque]
pub open spec fn branches_rule(
    c: UnionContext,
    s: UnionState,
    home: Home,
    outer: Seq<(BindingId, TypeId)>,
    branches: Seq<ConditionalStatementBranch>,
    from: int,
) -> UnionState
    decreases branches, branches.len() - from,
{
    if from < 0 || from >= branches.len() {
        s
    } else {
        branches_rule(
            c,
            branch_rule(c, with_narrowed(s, outer), home, &branches[from]),
            home,
            outer,
            branches,
            from + 1,
        )
    }
}

#[verifier::opaque]
pub open spec fn branch_rule(
    c: UnionContext,
    s: UnionState,
    home: Home,
    branch: &ConditionalStatementBranch,
) -> UnionState
    decreases branch, 0int,
{
    let s = expression_rule(c, s, home, &branch.condition).0;
    body_rule(c, where_holds(s, &branch.condition), home, &branch.body)
}

/// The branches of an `if` expression from one on, with the types of their values.
#[verifier::opaque]
pub open spec fn choices_rule(
    c: UnionContext,
    s: UnionState,
    home: Home,
    outer: Seq<(BindingId, TypeId)>,
    branches: Seq<ConditionalExpressionBranch>,
    from: int,
    states: Seq<TypeState>,
) -> (UnionState, Seq<TypeState>)
    decreases branches, branches.len() - from,
{
    if from < 0 || from >= branches.len() {
        (s, states)
    } else {
        let s = choice_rule(c, with_narrowed(s, outer), home, &branches[from]);
        choices_rule(c, s, home, outer, branches, from + 1, states.push(body_value(s, &branches[from].body)))
    }
}

#[verifier::opaque]
pub open spec fn choice_rule(
    c: UnionContext,
    s: UnionState,
    home: Home,
    branch: &ConditionalExpressionBranch,
) -> UnionState
    decreases branch, 0int,
{
    let s = expression_rule(c, s, home, &branch.condition).0;
    choice_body_rule(c, where_holds(s, &branch.condition), home, &branch.body)
}

/// The arms of a `switch` over a union from one on.
#[verifier::opaque]
pub open spec fn arms_rule(
    c: UnionContext,
    s: UnionState,
    home: Home,
    subject: Subject,
    arms: Seq<SwitchArm>,
    from: int,
    coverage: Coverage,
) -> (UnionState, Coverage)
    decreases arms, arms.len() - from,
{
    if from < 0 || from >= arms.len() {
        (s, coverage)
    } else {
        let (s, coverage) = arm_rule(c, s, home, subject, &arms[from], coverage);
        arms_rule(c, s, home, subject, arms, from + 1, coverage)
    }
}

#[verifier::opaque]
pub open spec fn arm_rule(
    c: UnionContext,
    s: UnionState,
    home: Home,
    subject: Subject,
    arm: &SwitchArm,
    coverage: Coverage,
) -> (
    UnionState,
    Coverage,
)
    decreases arm, 0int,
{
    let (s, coverage) = arm_opened(c, s, subject, arm, coverage);
    (body_rule(c, s, home, &arm.body), coverage)
}

/// The arms of a `switch` over something else from one on.
#[verifier::opaque]
pub open spec fn loose_arms_rule(
    c: UnionContext,
    s: UnionState,
    home: Home,
    arms: Seq<SwitchArm>,
    from: int,
) -> UnionState
    decreases arms, arms.len() - from,
{
    if from < 0 || from >= arms.len() {
        s
    } else {
        loose_arms_rule(c, loose_arm_rule(c, s, home, &arms[from]), home, arms, from + 1)
    }
}

#[verifier::opaque]
pub open spec fn loose_arm_rule(c: UnionContext, s: UnionState, home: Home, arm: &SwitchArm) -> UnionState
    decreases arm, 0int,
{
    body_rule(c, s, home, &arm.body)
}

/// A `switch` whose operand has been looked at.
#[verifier::opaque]
pub open spec fn switch_rule(c: UnionContext, s: UnionState, home: Home, statement: &Statement) -> UnionState
    decreases statement, 0int,
{
    match &statement.kind {
        StatementKind::Switch { value, arms, else_body } => {
            let s = expression_rule(c, s, home, value).0;
            let state = known(s, value.span);
            match parts(c, s, state) {
                None => {
                    let s = switch_refused(c, s, value.span, state);
                    let s = loose_arms_rule(c, s, home, arms@, 0);
                    let s = else_rule(c, s, home, else_body);
                    statement_settled(s, statement.span)
                },
                Some((operand_union, style, alternatives)) => {
                    let outer = s.narrowed;
                    let subject = Subject { binding: exact(c, value), style, alternatives, outer };
                    let (s, coverage) = arms_rule(
                        c,
                        s,
                        home,
                        subject,
                        arms@,
                        0,
                        Coverage { covered: seq![], arms: seq![] },
                    );
                    let s = else_rule(c, with_narrowed(s, outer), home, else_body);
                    let s = switch_closed(
                        c,
                        s,
                        statement.span,
                        operand_union,
                        subject,
                        coverage,
                        match else_body {
                            Some(body) => Some(body.span),
                            None => None,
                        },
                    );
                    let s = with_narrowed(statement_settled(s, statement.span), outer);
                    behind_else(c, behind_arms(c, s, arms@, 0), else_body)
                },
            }
        },
        _ => s,
    }
}

#[verifier::opaque]
pub open spec fn statement_rule(c: UnionContext, s: UnionState, home: Home, statement: &Statement) -> UnionState
    decreases statement, 1int,
{
    match &statement.kind {
        StatementKind::Local { initializer, .. } => {
            let (s, state) = expression_rule(c, s, home, initializer);
            local_settled(c, s, statement.span, state)
        },
        StatementKind::Assignment { target, value, .. } => {
            let s = target_rule(c, s, home, target);
            behind_assignment(c, expression_rule(c, s, home, value).0, target)
        },
        StatementKind::Expression(expression) => expression_rule(c, s, home, expression).0,
        StatementKind::Return(value) => match value {
            Some(value) => result_value(c, expression_rule(c, s, home, value).0, home, value),
            None => s,
        },
        StatementKind::Break => s,
        StatementKind::Continue => s,
        StatementKind::If { branches, else_body } => {
            let outer = s.narrowed;
            let s = branches_rule(c, s, home, outer, branches@, 0);
            let s = else_rule(c, with_narrowed(s, outer), home, else_body);
            behind_else(c, behind_branches(c, with_narrowed(s, outer), branches@, 0), else_body)
        },
        StatementKind::While { condition, body } => {
            let s = expression_rule(c, s, home, condition).0;
            let outer = s.narrowed;
            let s = body_rule(c, where_holds(s, condition), home, body);
            widened_from(with_narrowed(s, outer), assigned_in_body(c, body, seq![]), 0)
        },
        StatementKind::For { iterable, body, .. } => {
            let s = expression_rule(c, s, home, iterable).0;
            let s = body_rule(c, s, home, body);
            widened_from(s, assigned_in_body(c, body, seq![]), 0)
        },
        StatementKind::Switch { .. } => switch_rule(c, s, home, statement),
        StatementKind::Block(block) => block_rule(c, s, home, block),
    }
}

/// Expressions from one on.
#[verifier::opaque]
pub open spec fn expressions_rule(
    c: UnionContext,
    s: UnionState,
    home: Home,
    expressions: Seq<Expression>,
    from: int,
) -> UnionState
    decreases expressions, expressions.len() - from,
{
    if from < 0 || from >= expressions.len() {
        s
    } else {
        expressions_rule(c, expression_rule(c, s, home, &expressions[from]).0, home, expressions, from + 1)
    }
}

/// Map entries from one on.
#[verifier::opaque]
pub open spec fn entries_rule(
    c: UnionContext,
    s: UnionState,
    home: Home,
    entries: Seq<MapEntry>,
    from: int,
) -> UnionState
    decreases entries, entries.len() - from,
{
    if from < 0 || from >= entries.len() {
        s
    } else {
        entries_rule(c, entry_rule(c, s, home, &entries[from]), home, entries, from + 1)
    }
}

#[verifier::opaque]
pub open spec fn entry_rule(c: UnionContext, s: UnionState, home: Home, entry: &MapEntry) -> UnionState
    decreases entry, 0int,
{
    expression_rule(c, expression_rule(c, s, home, &entry.key).0, home, &entry.value).0
}

/// Arguments from one on.
#[verifier::opaque]
pub open spec fn arguments_rule(
    c: UnionContext,
    s: UnionState,
    home: Home,
    arguments: Seq<Argument>,
    from: int,
) -> UnionState
    decreases arguments, arguments.len() - from,
{
    if from < 0 || from >= arguments.len() {
        s
    } else {
        arguments_rule(c, argument_rule(c, s, home, &arguments[from]), home, arguments, from + 1)
    }
}

#[verifier::opaque]
pub open spec fn argument_rule(c: UnionContext, s: UnionState, home: Home, argument: &Argument) -> UnionState
    decreases argument, 0int,
{
    match &argument.kind {
        ArgumentKind::Positional(value) => expression_rule(c, s, home, value).0,
        ArgumentKind::Named { value, .. } => expression_rule(c, s, home, value).0,
    }
}

/// What is called, as far as it is an expression with a type.
#[verifier::opaque]
pub open spec fn callee_rule(c: UnionContext, s: UnionState, home: Home, callee: &Expression) -> UnionState
    decreases callee, 2int,
{
    match &callee.kind {
        ExpressionKind::Member { value, .. } => expression_rule(c, s, home, value).0,
        ExpressionKind::Identifier(_) => s,
        _ => if latest(s.annotations, callee.span) is Some {
            expression_rule(c, s, home, callee).0
        } else {
            s
        },
    }
}

#[verifier::opaque]
pub open spec fn expression_core_rule(c: UnionContext, s: UnionState, home: Home, e: &Expression) -> UnionState
    decreases e, 0int,
{
    match &e.kind {
        ExpressionKind::Identifier(identifier) => name_typed(c, s, e.span, identifier.span),
        ExpressionKind::Parenthesized(inner) => {
            let (s, state) = expression_rule(c, s, home, inner);
            changed(s, e.span, state)
        },
        ExpressionKind::Conversion { operand, .. } => expression_rule(c, s, home, operand).0,
        ExpressionKind::Unary { operator, operand, .. } => {
            let (s, state) = expression_rule(c, s, home, operand);
            unary_typed(c, s, e.span, *operator, state)
        },
        ExpressionKind::Try { value, operator_span } => {
            let (s, state) = expression_rule(c, s, home, value);
            try_typed(c, s, home, e.span, *operator_span, state)
        },
        ExpressionKind::List(elements) => list_typed(
            expressions_rule(c, s, home, elements@, 0),
            e.span,
            elements@,
        ),
        ExpressionKind::Mapping(entries) => mapping_typed(entries_rule(c, s, home, entries@, 0), e.span, entries@),
        ExpressionKind::Block(block) => {
            let s = block_rule(c, s, home, block);
            changed(s, e.span, block_value(s, block))
        },
        ExpressionKind::If { branches, else_branch } => {
            let outer = s.narrowed;
            let (s, states) = choices_rule(c, s, home, outer, branches@, 0, seq![]);
            let s = choice_body_rule(c, with_narrowed(s, outer), home, else_branch);
            let states = states.push(body_value(s, else_branch));
            choice_typed(with_narrowed(s, outer), e.span, states)
        },
        ExpressionKind::Binary { left, operator, right, .. } => {
            let (s, first) = expression_rule(c, s, home, left);
            let (s, second) = expression_rule(c, s, home, right);
            binary_typed(c, s, e.span, *operator, first, second)
        },
        ExpressionKind::Is { value, ty, .. } => {
            let s = expression_rule(c, s, home, value).0;
            is_typed(c, s, e.span, value, ty)
        },
        ExpressionKind::Call { callee, arguments } => {
            let s = if call_target(s, e.span) matches Some(CallTarget::QualifiedConstructor(_)) {
                s
            } else {
                callee_rule(c, s, home, callee)
            };
            let s = arguments_rule(c, s, home, arguments@, 0);
            call_typed(c, s, e.span, callee, arguments@)
        },
        ExpressionKind::Index { value, index } => {
            let s = expression_rule(c, s, home, value).0;
            let s = expression_rule(c, s, home, index).0;
            index_typed(c, s, e.span, value.span, index.span)
        },
        ExpressionKind::Member { value, member } => {
            let s = expression_rule(c, s, home, value).0;
            member_typed(c, s, e.span, value.span, *member)
        },
        _ => s,
    }
}

#[verifier::opaque]
pub open spec fn expression_rule(c: UnionContext, s: UnionState, home: Home, e: &Expression) -> (UnionState, TypeState)
    decreases e, 1int,
{
    let s = expression_core_rule(c, s, home, e);
    (s, known(s, e.span))
}

/// One function.
#[verifier::opaque]
pub open spec fn function_rule(c: UnionContext, s: UnionState, signature: FunctionSignature) -> UnionState {
    let home = Home { function: signature.id, name: signature.node.name.span, result: signature.result };
    let s = block_rule(c, with_narrowed(s, seq![]), home, &signature.node.body);
    match &signature.node.body.value {
        Some(value) => result_value(c, s, home, value),
        None => s,
    }
}

/// The functions from one on.
pub open spec fn functions_rule(c: UnionContext, s: UnionState, from: int) -> UnionState
    decreases c.signatures.len() - from,
{
    if from < 0 || from >= c.signatures.len() {
        s
    } else {
        functions_rule(c, function_rule(c, s, c.signatures[from]), from + 1)
    }
}

} // verus!
