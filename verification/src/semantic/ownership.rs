//! The nodes of a parsed program carry the number of its tree, so facts that may be handed on are about that tree.

use crate::analysis::Analysis;
use crate::ast::{
    Argument, ArgumentKind, AssignmentTarget, AssignmentTargetSuffix, AssignmentTargetSuffixKind, Block,
    ConditionalExpressionBranch, ConditionalStatementBranch, Declaration, Expression, ExpressionBody,
    ExpressionBodyKind, ExpressionKind, FunctionDeclaration, MapEntry, Parameter, Program, Statement,
    StatementBody, StatementBodyKind, StatementKind, SwitchArm, Tree, Type, TypeKind, TypeMember,
    argument_trees, arm_trees, block_node, call_node, entry_trees, expression_branch_trees, expression_trees,
    function_node, if_expression_node, if_node, node, node1, node2, return_node, statement_branch_trees,
    statement_trees, suffix_trees, switch_node, type_trees,
};
use crate::diagnostic::Diagnostics;
use crate::grammar::{input_of, program};
use crate::grammar::nesting::{law_programs_nest, lemma_uniform, uniform};
use crate::parser::parse_result;
use crate::semantic::{FlowSubject, SemanticResult};
use crate::semantic::handoff::{Handoff, expression_from, handoff_verdict, loop_from, statement_from};
use crate::semantic::laws::{lemma_control_facts, lemma_flow_facts, lemma_switch_facts};
use crate::semantic::subjects::{
    Node, Place, Visit, argument_visits, arguments_visits, arm_visits, arms_visits, block_visits,
    declarations_visits, else_visits, entries_visits, entry_visits, expression_body_visits,
    expression_branch_visits, expression_branches_visits, expression_visits, expressions_visits,
    function_visits, functions_before, member_type, members_visits, parameters_visits, program_visits,
    statement_body_visits, statement_branch_visits, statement_branches_visits, statement_visits,
    statements_visits, suffix_visits, suffixes_visits, target_visits, top, ty_visits, types_visits, visit,
    within,
};
use crate::source::{SourceFile, Span};
use vstd::prelude::*;

verus! {

broadcast use crate::ast::group_node_spans;

/// The span of a node.
pub open spec fn node_span(node: Node) -> Span {
    match node {
        Node::Type(node) => node.span,
        Node::Parameter(node) => node.span,
        Node::Block(node) => node.span,
        Node::Statement(node) => node.span,
        Node::StatementBody(node) => node.span,
        Node::Expression(node) => node.span,
        Node::ExpressionBody(node) => node.span,
        Node::SwitchArm(node) => node.span,
    }
}

/// Whether all nodes carry the given number.
pub open spec fn own(visits: Seq<Visit>, number: u64) -> bool {
    forall|i: int| 0 <= i < visits.len() ==> node_span((#[trigger] visits[i]).node).tree == number
}

/// A tree with the given number.
spec fn held(tree: Tree, number: u64) -> bool {
    uniform(tree, number)
}

spec fn all_held(trees: Seq<Tree>, number: u64) -> bool {
    forall|i: int| 0 <= i < trees.len() ==> held(#[trigger] trees[i], number)
}

proof fn lemma_children(tree: Tree, number: u64)
    requires
        held(tree, number),
    ensures
        all_held(tree.children, number),
        tree.span.tree == number,
{
    reveal_with_fuel(uniform, 1);
}

proof fn lemma_visit(node: Node, at: Place, number: u64)
    requires
        node_span(node).tree == number,
    ensures
        own(visit(node, at), number),
{
}

proof fn lemma_join(first: Seq<Visit>, second: Seq<Visit>, number: u64)
    requires
        own(first, number),
        own(second, number),
    ensures
        own(first + second, number),
{
}

proof fn lemma_type(it: &Type, at: Place, number: u64)
    requires
        held(it.tree(), number),
    ensures
        own(ty_visits(it, at), number),
    decreases it, 0int,
{
    lemma_children(it.tree(), number);
    reveal(node1);
    reveal(node2);
    reveal(node);
    lemma_visit(Node::Type(it), at, number);
    match &it.kind {
        TypeKind::List(element) => {
            assert(held(it.tree().children[0], number));
            lemma_type(element, at, number);
        },
        TypeKind::Parenthesized(inner) => {
            assert(held(it.tree().children[0], number));
            lemma_type(inner, at, number);
        },
        TypeKind::Tagged { payload, .. } => {
            assert(held(it.tree().children[0], number));
            lemma_type(payload, at, number);
        },
        TypeKind::Mapping { key, value } => {
            assert(held(it.tree().children[0], number));
            assert(held(it.tree().children[1], number));
            lemma_type(key, at, number);
            lemma_type(value, at, number);
        },
        TypeKind::Union(alternatives) => {
            lemma_types(alternatives@, alternatives@.len() as int, at, number);
        },
        _ => {},
    }
}

proof fn lemma_types(all: Seq<Type>, count: int, at: Place, number: u64)
    requires
        all_held(type_trees(all), number),
    ensures
        own(types_visits(all, count, at), number),
    decreases all, count,
{
    if 0 < count <= all.len() {
        let last = all[count - 1];
        assert(type_trees(all)[count - 1] == last.tree());
        lemma_types(all, count - 1, at, number);
        lemma_type(&last, at, number);
        lemma_join(types_visits(all, count - 1, at), ty_visits(&last, at), number);
    }
}

proof fn lemma_block(it: &Block, at: Place, number: u64)
    requires
        held(it.tree(), number),
    ensures
        own(block_visits(it, at), number),
    decreases it, 0int,
{
    lemma_children(it.tree(), number);
    reveal(block_node);
    let inner = statement_trees(it.statements@);
    assert forall|i: int| 0 <= i < inner.len() implies held(#[trigger] inner[i], number) by {
        assert(it.tree().children[i] == inner[i]);
    }
    lemma_visit(Node::Block(it), at, number);
    lemma_statements(it.statements@, it.statements@.len() as int, at, number);
    if let Some(value) = &it.value {
        assert(it.tree().children[inner.len() as int] == value.tree());
        lemma_expression(value, at, number);
    }
}

proof fn lemma_statement_body(it: &StatementBody, at: Place, number: u64)
    requires
        held(it.tree(), number),
    ensures
        own(statement_body_visits(it, at), number),
    decreases it, 0int,
{
    lemma_children(it.tree(), number);
    reveal(node1);
    assert(held(it.tree().children[0], number));
    lemma_visit(Node::StatementBody(it), at, number);
    match &it.kind {
        StatementBodyKind::Block(block) => lemma_block(block, at, number),
        StatementBodyKind::Statement(statement) => lemma_statement(statement, at, number),
    }
}

proof fn lemma_else(it: &Option<StatementBody>, at: Place, number: u64)
    requires
        it matches Some(body) ==> held(body.tree(), number),
    ensures
        own(else_visits(it, at), number),
    decreases it, 0int,
{
    if let Some(body) = it {
        lemma_statement_body(body, at, number);
    }
}

proof fn lemma_expression_body(it: &ExpressionBody, at: Place, number: u64)
    requires
        held(it.tree(), number),
    ensures
        own(expression_body_visits(it, at), number),
    decreases it, 0int,
{
    lemma_children(it.tree(), number);
    reveal(node1);
    assert(held(it.tree().children[0], number));
    lemma_visit(Node::ExpressionBody(it), at, number);
    match &it.kind {
        ExpressionBodyKind::Block(block) => lemma_block(block, at, number),
        ExpressionBodyKind::Expression(expression) => lemma_expression(expression, at, number),
    }
}

proof fn lemma_statement_branch(it: &ConditionalStatementBranch, at: Place, number: u64)
    requires
        held(it.tree(), number),
    ensures
        own(statement_branch_visits(it, at), number),
    decreases it, 0int,
{
    lemma_children(it.tree(), number);
    reveal(node2);
    assert(held(it.tree().children[0], number));
    assert(held(it.tree().children[1], number));
    lemma_expression(&it.condition, at, number);
    lemma_statement_body(&it.body, at, number);
}

proof fn lemma_expression_branch(it: &ConditionalExpressionBranch, at: Place, number: u64)
    requires
        held(it.tree(), number),
    ensures
        own(expression_branch_visits(it, at), number),
    decreases it, 0int,
{
    lemma_children(it.tree(), number);
    reveal(node2);
    assert(held(it.tree().children[0], number));
    assert(held(it.tree().children[1], number));
    lemma_expression(&it.condition, at, number);
    lemma_expression_body(&it.body, at, number);
}

proof fn lemma_arm(it: &SwitchArm, at: Place, number: u64)
    requires
        held(it.tree(), number),
    ensures
        own(arm_visits(it, at), number),
    decreases it, 0int,
{
    lemma_children(it.tree(), number);
    reveal(node2);
    assert(held(it.tree().children[0], number));
    assert(held(it.tree().children[1], number));
    lemma_visit(Node::SwitchArm(it), at, number);
    lemma_type(&it.label, at, number);
    lemma_statement_body(&it.body, at, number);
}

proof fn lemma_entry(it: &MapEntry, at: Place, number: u64)
    requires
        held(it.tree(), number),
    ensures
        own(entry_visits(it, at), number),
    decreases it, 0int,
{
    lemma_children(it.tree(), number);
    reveal(node2);
    assert(held(it.tree().children[0], number));
    assert(held(it.tree().children[1], number));
    lemma_expression(&it.key, at, number);
    lemma_expression(&it.value, at, number);
}

proof fn lemma_argument(it: &Argument, at: Place, number: u64)
    requires
        held(it.tree(), number),
    ensures
        own(argument_visits(it, at), number),
    decreases it, 0int,
{
    lemma_children(it.tree(), number);
    reveal(node1);
    assert(held(it.tree().children[0], number));
    match &it.kind {
        ArgumentKind::Positional(value) => lemma_expression(value, at, number),
        ArgumentKind::Named { value, .. } => lemma_expression(value, at, number),
    }
}

proof fn lemma_suffix(it: &AssignmentTargetSuffix, at: Place, number: u64)
    requires
        held(it.tree(), number),
    ensures
        own(suffix_visits(it, at), number),
    decreases it, 0int,
{
    lemma_children(it.tree(), number);
    if let AssignmentTargetSuffixKind::Index(index) = &it.kind {
        reveal(node1);
        assert(held(it.tree().children[0], number));
        lemma_expression(index, at, number);
    }
}

proof fn lemma_target(it: &AssignmentTarget, at: Place, number: u64)
    requires
        held(it.tree(), number),
    ensures
        own(target_visits(it, at), number),
    decreases it, 0int,
{
    lemma_children(it.tree(), number);
    reveal(node);
    lemma_suffixes(it.suffixes@, it.suffixes@.len() as int, at, number);
}

proof fn lemma_statement(it: &Statement, at: Place, number: u64)
    requires
        held(it.tree(), number),
    ensures
        own(statement_visits(it, at), number),
    decreases it, 0int,
{
    lemma_children(it.tree(), number);
    lemma_visit(Node::Statement(it), at, number);
    match &it.kind {
        StatementKind::Local { initializer, .. } => {
            reveal(node1);
            assert(held(it.tree().children[0], number));
            lemma_expression(initializer, at, number);
        },
        StatementKind::Assignment { target, value, .. } => {
            reveal(node2);
            assert(held(it.tree().children[0], number));
            assert(held(it.tree().children[1], number));
            lemma_target(target, at, number);
            lemma_expression(value, at, number);
        },
        StatementKind::Expression(expression) => {
            reveal(node1);
            assert(held(it.tree().children[0], number));
            lemma_expression(expression, at, number);
        },
        StatementKind::Return(value) => {
            reveal(return_node);
            if let Some(value) = value {
                assert(held(it.tree().children[0], number));
                lemma_expression(value, at, number);
            }
        },
        StatementKind::If { branches, else_body } => {
            reveal(if_node);
            let inner = statement_branch_trees(branches@);
            assert forall|i: int| 0 <= i < inner.len() implies held(#[trigger] inner[i], number) by {
                assert(it.tree().children[i] == inner[i]);
            }
            if let Some(body) = else_body {
                assert(it.tree().children[inner.len() as int] == body.tree());
            }
            lemma_statement_branches(branches@, branches@.len() as int, at, number);
            lemma_else(else_body, at, number);
        },
        StatementKind::While { condition, body } => {
            reveal(node2);
            assert(held(it.tree().children[0], number));
            assert(held(it.tree().children[1], number));
            lemma_expression(condition, at, number);
            lemma_statement_body(body, within(at, it.span), number);
        },
        StatementKind::For { iterable, body, .. } => {
            reveal(node2);
            assert(held(it.tree().children[0], number));
            assert(held(it.tree().children[1], number));
            lemma_expression(iterable, at, number);
            lemma_statement_body(body, within(at, it.span), number);
        },
        StatementKind::Switch { value, arms, else_body } => {
            reveal(switch_node);
            assert(held(it.tree().children[0], number));
            let inner = arm_trees(arms@);
            assert forall|i: int| 0 <= i < inner.len() implies held(#[trigger] inner[i], number) by {
                assert(it.tree().children[i + 1] == inner[i]);
            }
            if let Some(body) = else_body {
                assert(it.tree().children[inner.len() as int + 1] == body.tree());
            }
            lemma_expression(value, at, number);
            lemma_arms(arms@, arms@.len() as int, at, number);
            lemma_else(else_body, at, number);
        },
        StatementKind::Block(block) => {
            reveal(node1);
            assert(held(it.tree().children[0], number));
            lemma_block(block, at, number);
        },
        _ => {},
    }
}

proof fn lemma_expression(it: &Expression, at: Place, number: u64)
    requires
        held(it.tree(), number),
    ensures
        own(expression_visits(it, at), number),
    decreases it, 0int,
{
    lemma_children(it.tree(), number);
    lemma_visit(Node::Expression(it), at, number);
    match &it.kind {
        ExpressionKind::Parenthesized(inner) => {
            reveal(node1);
            assert(held(it.tree().children[0], number));
            lemma_expression(inner, at, number);
        },
        ExpressionKind::Conversion { operand, .. } => {
            reveal(node1);
            assert(held(it.tree().children[0], number));
            lemma_expression(operand, at, number);
        },
        ExpressionKind::Unary { operand, .. } => {
            reveal(node1);
            assert(held(it.tree().children[0], number));
            lemma_expression(operand, at, number);
        },
        ExpressionKind::Member { value, .. } => {
            reveal(node1);
            assert(held(it.tree().children[0], number));
            lemma_expression(value, at, number);
        },
        ExpressionKind::Try { value, .. } => {
            reveal(node1);
            assert(held(it.tree().children[0], number));
            lemma_expression(value, at, number);
        },
        ExpressionKind::TypedEmptyList(ty) => {
            reveal(node1);
            assert(held(it.tree().children[0], number));
            lemma_type(ty, at, number);
        },
        ExpressionKind::TypedEmptyMap(ty) => {
            reveal(node1);
            assert(held(it.tree().children[0], number));
            lemma_type(ty, at, number);
        },
        ExpressionKind::Block(block) => {
            reveal(node1);
            assert(held(it.tree().children[0], number));
            lemma_block(block, at, number);
        },
        ExpressionKind::Binary { left, right, .. } => {
            reveal(node2);
            assert(held(it.tree().children[0], number));
            assert(held(it.tree().children[1], number));
            lemma_expression(left, at, number);
            lemma_expression(right, at, number);
        },
        ExpressionKind::Is { value, ty, .. } => {
            reveal(node2);
            assert(held(it.tree().children[0], number));
            assert(held(it.tree().children[1], number));
            lemma_expression(value, at, number);
            lemma_type(ty, at, number);
        },
        ExpressionKind::Index { value, index } => {
            reveal(node2);
            assert(held(it.tree().children[0], number));
            assert(held(it.tree().children[1], number));
            lemma_expression(value, at, number);
            lemma_expression(index, at, number);
        },
        ExpressionKind::List(elements) => {
            reveal(node);
            lemma_expressions(elements@, elements@.len() as int, at, number);
        },
        ExpressionKind::Mapping(entries) => {
            reveal(node);
            lemma_entries(entries@, entries@.len() as int, at, number);
        },
        ExpressionKind::If { branches, else_branch } => {
            reveal(if_expression_node);
            let inner = expression_branch_trees(branches@);
            assert forall|i: int| 0 <= i < inner.len() implies held(#[trigger] inner[i], number) by {
                assert(it.tree().children[i] == inner[i]);
            }
            assert(it.tree().children[inner.len() as int] == else_branch.tree());
            lemma_expression_branches(branches@, branches@.len() as int, at, number);
            lemma_expression_body(else_branch, at, number);
        },
        ExpressionKind::Call { callee, arguments } => {
            reveal(call_node);
            assert(held(it.tree().children[0], number));
            let inner = argument_trees(arguments@);
            assert forall|i: int| 0 <= i < inner.len() implies held(#[trigger] inner[i], number) by {
                assert(it.tree().children[i + 1] == inner[i]);
            }
            lemma_expression(callee, at, number);
            lemma_arguments(arguments@, arguments@.len() as int, at, number);
        },
        _ => {},
    }
}

proof fn lemma_statements(all: Seq<Statement>, count: int, at: Place, number: u64)
    requires
        all_held(statement_trees(all), number),
    ensures
        own(statements_visits(all, count, at), number),
    decreases all, count,
{
    if 0 < count <= all.len() {
        let last = all[count - 1];
        assert(statement_trees(all)[count - 1] == last.tree());
        lemma_statements(all, count - 1, at, number);
        lemma_statement(&last, at, number);
        lemma_join(statements_visits(all, count - 1, at), statement_visits(&last, at), number);
    }
}

proof fn lemma_expressions(all: Seq<Expression>, count: int, at: Place, number: u64)
    requires
        all_held(expression_trees(all), number),
    ensures
        own(expressions_visits(all, count, at), number),
    decreases all, count,
{
    if 0 < count <= all.len() {
        let last = all[count - 1];
        assert(expression_trees(all)[count - 1] == last.tree());
        lemma_expressions(all, count - 1, at, number);
        lemma_expression(&last, at, number);
        lemma_join(expressions_visits(all, count - 1, at), expression_visits(&last, at), number);
    }
}

proof fn lemma_entries(all: Seq<MapEntry>, count: int, at: Place, number: u64)
    requires
        all_held(entry_trees(all), number),
    ensures
        own(entries_visits(all, count, at), number),
    decreases all, count,
{
    if 0 < count <= all.len() {
        let last = all[count - 1];
        assert(entry_trees(all)[count - 1] == last.tree());
        lemma_entries(all, count - 1, at, number);
        lemma_entry(&last, at, number);
        lemma_join(entries_visits(all, count - 1, at), entry_visits(&last, at), number);
    }
}

proof fn lemma_arguments(all: Seq<Argument>, count: int, at: Place, number: u64)
    requires
        all_held(argument_trees(all), number),
    ensures
        own(arguments_visits(all, count, at), number),
    decreases all, count,
{
    if 0 < count <= all.len() {
        let last = all[count - 1];
        assert(argument_trees(all)[count - 1] == last.tree());
        lemma_arguments(all, count - 1, at, number);
        lemma_argument(&last, at, number);
        lemma_join(arguments_visits(all, count - 1, at), argument_visits(&last, at), number);
    }
}

proof fn lemma_statement_branches(all: Seq<ConditionalStatementBranch>, count: int, at: Place, number: u64)
    requires
        all_held(statement_branch_trees(all), number),
    ensures
        own(statement_branches_visits(all, count, at), number),
    decreases all, count,
{
    if 0 < count <= all.len() {
        let last = all[count - 1];
        assert(statement_branch_trees(all)[count - 1] == last.tree());
        lemma_statement_branches(all, count - 1, at, number);
        lemma_statement_branch(&last, at, number);
        lemma_join(statement_branches_visits(all, count - 1, at), statement_branch_visits(&last, at), number);
    }
}

proof fn lemma_expression_branches(all: Seq<ConditionalExpressionBranch>, count: int, at: Place, number: u64)
    requires
        all_held(expression_branch_trees(all), number),
    ensures
        own(expression_branches_visits(all, count, at), number),
    decreases all, count,
{
    if 0 < count <= all.len() {
        let last = all[count - 1];
        assert(expression_branch_trees(all)[count - 1] == last.tree());
        lemma_expression_branches(all, count - 1, at, number);
        lemma_expression_branch(&last, at, number);
        lemma_join(expression_branches_visits(all, count - 1, at), expression_branch_visits(&last, at), number);
    }
}

proof fn lemma_arms(all: Seq<SwitchArm>, count: int, at: Place, number: u64)
    requires
        all_held(arm_trees(all), number),
    ensures
        own(arms_visits(all, count, at), number),
    decreases all, count,
{
    if 0 < count <= all.len() {
        let last = all[count - 1];
        assert(arm_trees(all)[count - 1] == last.tree());
        lemma_arms(all, count - 1, at, number);
        lemma_arm(&last, at, number);
        lemma_join(arms_visits(all, count - 1, at), arm_visits(&last, at), number);
    }
}

proof fn lemma_suffixes(all: Seq<AssignmentTargetSuffix>, count: int, at: Place, number: u64)
    requires
        all_held(suffix_trees(all), number),
    ensures
        own(suffixes_visits(all, count, at), number),
    decreases all, count,
{
    if 0 < count <= all.len() {
        let last = all[count - 1];
        assert(suffix_trees(all)[count - 1] == last.tree());
        lemma_suffixes(all, count - 1, at, number);
        lemma_suffix(&last, at, number);
        lemma_join(suffixes_visits(all, count - 1, at), suffix_visits(&last, at), number);
    }
}

proof fn lemma_members(all: Seq<TypeMember>, count: int, at: Place, number: u64)
    requires
        forall|i: int| 0 <= i < all.len() ==> held((#[trigger] all[i]).tree(), number),
    ensures
        own(members_visits(all, count, at), number),
    decreases count,
{
    if 0 < count <= all.len() {
        let last = all[count - 1];
        assert(held(last.tree(), number));
        lemma_members(all, count - 1, at, number);
        lemma_children(last.tree(), number);
        reveal(node1);
        assert(held(last.tree().children[0], number));
        lemma_type(member_type(last), at, number);
    }
}

proof fn lemma_parameters(all: Seq<Parameter>, count: int, at: Place, number: u64)
    requires
        forall|i: int| 0 <= i < all.len() ==> held((#[trigger] all[i]).tree(), number),
    ensures
        own(parameters_visits(all, count, at), number),
    decreases count,
{
    if 0 < count <= all.len() {
        let last = all[count - 1];
        assert(held(last.tree(), number));
        lemma_parameters(all, count - 1, at, number);
        lemma_children(last.tree(), number);
        reveal(node1);
        assert(held(last.tree().children[0], number));
        lemma_visit(Node::Parameter(&last), at, number);
        lemma_type(&last.ty, at, number);
    }
}

proof fn lemma_function(it: &FunctionDeclaration, at: Place, number: u64)
    requires
        held(it.tree(), number),
    ensures
        own(function_visits(it, at), number),
{
    lemma_children(it.tree(), number);
    reveal(function_node);
    let inner = it.parameters@.map_values(|parameter: Parameter| parameter.tree());
    assert forall|i: int| 0 <= i < it.parameters@.len() implies held(
        (#[trigger] it.parameters@[i]).tree(),
        number,
    ) by {
        assert(it.tree().children[i] == inner[i]);
    }
    lemma_parameters(it.parameters@, it.parameters@.len() as int, at, number);
    if let Some(ty) = &it.return_type {
        assert(it.tree().children[inner.len() as int] == ty.tree());
        lemma_type(ty, at, number);
    }
    assert(it.tree().children[it.tree().children.len() - 1] == it.body.tree());
    lemma_block(&it.body, at, number);
}

proof fn lemma_declarations(all: Seq<Declaration>, count: int, number: u64)
    requires
        forall|i: int| 0 <= i < all.len() ==> held((#[trigger] all[i]).tree(), number),
    ensures
        own(declarations_visits(all, count), number),
    decreases count,
{
    if 0 < count <= all.len() {
        let last = all[count - 1];
        assert(held(last.tree(), number));
        lemma_declarations(all, count - 1, number);
        match &last {
            Declaration::Type(declaration) => {
                lemma_children(declaration.tree(), number);
                reveal(node);
                let members = declaration.members@;
                assert forall|i: int| 0 <= i < members.len() implies held(
                    (#[trigger] members[i]).tree(),
                    number,
                ) by {
                    assert(declaration.tree().children[i] == members[i].tree());
                }
                lemma_members(members, members.len() as int, top(None), number);
            },
            Declaration::Function(function) => {
                lemma_function(function, top(Some(functions_before(all, count - 1) as usize)), number);
            },
        }
    }
}

/// The nodes of a program carry the number that it was parsed with.
pub proof fn law_nodes_carry_the_number_of_their_program(
    source: &SourceFile,
    number: u64,
    result: Result<Program, Diagnostics>,
)
    requires
        source.wf(),
        parse_result(source, number, result),
    ensures
        result matches Ok(parsed) ==> own(program_visits(&parsed), number),
{
    if let Ok(parsed) = result {
        law_programs_nest(source.bytes(), number);
        lemma_uniform(input_of(source.bytes(), number), parsed.tree());
        assert(program(input_of(source.bytes(), number))->Ok_0 == parsed.tree());
        lemma_children(parsed.tree(), number);
        reveal(node);
        let all = parsed.declarations@;
        assert forall|i: int| 0 <= i < all.len() implies held((#[trigger] all[i]).tree(), number) by {
            assert(parsed.tree().children[i] == all[i].tree());
        }
        lemma_declarations(all, all.len() as int, number);
    }
}

/// The span of the node that a fact about flow names.
pub open spec fn flow_span(subject: FlowSubject) -> Span {
    match subject {
        FlowSubject::Block(span) => span,
        FlowSubject::Statement(span) => span,
        FlowSubject::StatementBody(span) => span,
        FlowSubject::Expression(span) => span,
        FlowSubject::ExpressionBody(span) => span,
        FlowSubject::SwitchArm(span) => span,
    }
}

proof fn lemma_type_annotations(h: Handoff, from: int, index: int)
    requires
        0 <= from <= index < h.analysis.type_annotations@.len(),
        h.type_annotations(from) is Ok,
    ensures
        h.type_annotation(index) is Ok,
    decreases index - from,
{
    if from < index {
        lemma_type_annotations(h, from + 1, index);
    }
}

proof fn lemma_expression_annotations(h: Handoff, from: int, index: int)
    requires
        0 <= from <= index < h.analysis.expression_annotations@.len(),
        h.expression_annotations(from) is Ok,
    ensures
        h.expression_annotation(index) is Ok,
    decreases index - from,
{
    if from < index {
        lemma_expression_annotations(h, from + 1, index);
    }
}

proof fn lemma_literal_facts(h: Handoff, from: int, index: int)
    requires
        0 <= from <= index < h.analysis.literals@.len(),
        h.literal_facts(from) is Ok,
    ensures
        h.literal_fact(index) is Ok,
    decreases index - from,
{
    if from < index {
        lemma_literal_facts(h, from + 1, index);
    }
}

proof fn lemma_conversion_facts(h: Handoff, from: int, index: int)
    requires
        0 <= from <= index < h.analysis.numeric_conversions@.len(),
        h.conversion_facts(from) is Ok,
    ensures
        h.conversion_fact(index) is Ok,
    decreases index - from,
{
    if from < index {
        lemma_conversion_facts(h, from + 1, index);
    }
}

proof fn lemma_projection_facts(h: Handoff, from: int, index: int)
    requires
        0 <= from <= index < h.analysis.projections@.len(),
        h.projection_facts(from) is Ok,
    ensures
        h.projection_fact(index) is Ok,
    decreases index - from,
{
    if from < index {
        lemma_projection_facts(h, from + 1, index);
    }
}

proof fn lemma_call_facts(h: Handoff, from: int, index: int)
    requires
        0 <= from <= index < h.analysis.calls@.len(),
        h.call_facts(from) is Ok,
    ensures
        h.call_fact(index) is Ok,
    decreases index - from,
{
    if from < index {
        lemma_call_facts(h, from + 1, index);
    }
}

proof fn lemma_constructor_facts(h: Handoff, from: int, index: int)
    requires
        0 <= from <= index < h.analysis.constructors@.len(),
        h.constructor_facts(from) is Ok,
    ensures
        h.constructor_fact(index) is Ok,
    decreases index - from,
{
    if from < index {
        lemma_constructor_facts(h, from + 1, index);
    }
}

proof fn lemma_injection_facts(h: Handoff, from: int, index: int)
    requires
        0 <= from <= index < h.analysis.union_injections@.len(),
        h.injection_facts(from) is Ok,
    ensures
        h.injection_fact(index) is Ok,
    decreases index - from,
{
    if from < index {
        lemma_injection_facts(h, from + 1, index);
    }
}

proof fn lemma_test_facts(h: Handoff, from: int, index: int)
    requires
        0 <= from <= index < h.semantic.union_tests@.len(),
        h.test_facts(from) is Ok,
    ensures
        h.test_fact(index) is Ok,
    decreases index - from,
{
    if from < index {
        lemma_test_facts(h, from + 1, index);
    }
}

proof fn lemma_try_facts(h: Handoff, from: int, index: int)
    requires
        0 <= from <= index < h.semantic.tries@.len(),
        h.try_facts(from) is Ok,
    ensures
        h.try_fact(index) is Ok,
    decreases index - from,
{
    if from < index {
        lemma_try_facts(h, from + 1, index);
    }
}

proof fn lemma_return_facts(h: Handoff, from: int, index: int)
    requires
        0 <= from <= index < h.semantic.flow.returns@.len(),
        h.return_facts(from) is Ok,
    ensures
        h.return_fact(index) is Ok,
    decreases index - from,
{
    if from < index {
        lemma_return_facts(h, from + 1, index);
    }
}

proof fn lemma_found_expression(visits: Seq<Visit>, span: Span, from: int, number: u64)
    requires
        own(visits, number),
    ensures
        expression_from(visits, span, from) is Some ==> span.tree == number,
    decreases visits.len() - from,
{
    if 0 <= from < visits.len() {
        lemma_found_expression(visits, span, from + 1, number);
    }
}

proof fn lemma_found_statement(visits: Seq<Visit>, span: Span, from: int, number: u64)
    requires
        own(visits, number),
    ensures
        statement_from(visits, span, from) is Some ==> span.tree == number,
    decreases visits.len() - from,
{
    if 0 <= from < visits.len() {
        lemma_found_statement(visits, span, from + 1, number);
    }
}

proof fn lemma_found_loop(visits: Seq<Visit>, control: Span, from: int, number: u64)
    requires
        own(visits, number),
    ensures
        loop_from(visits, control, from) is Some ==> control.tree == number,
    decreases visits.len() - from,
{
    if 0 <= from < visits.len() {
        lemma_found_loop(visits, control, from + 1, number);
    }
}

/// Facts that may be handed on are about the tree of the program: those about types and expressions, and those about
/// the flow of control. So a fact about a node of another tree is refused, even where that tree is of the same text.
pub proof fn law_accepted_facts_are_about_the_program<'a>(
    source: &SourceFile,
    number: u64,
    analysis: &'a Analysis<'a>,
    semantic: &'a SemanticResult,
    index: int,
)
    requires
        source.wf(),
        parse_result(source, number, Ok(*analysis.program)),
        handoff_verdict(analysis, semantic) is Ok,
        0 <= index,
    ensures
        index < analysis.type_annotations@.len() ==> analysis.type_annotations@[index].node.tree == number,
        index < analysis.expression_annotations@.len() ==> analysis.expression_annotations@[index].node.tree == number,
        index < analysis.literals@.len() ==> analysis.literals@[index].node.tree == number,
        index < analysis.numeric_conversions@.len() ==> analysis.numeric_conversions@[index].node.tree == number,
        index < analysis.projections@.len() ==> analysis.projections@[index].node.tree == number,
        index < analysis.calls@.len() ==> analysis.calls@[index].node.tree == number,
        index < analysis.constructors@.len() ==> analysis.constructors@[index].node.tree == number,
        index < analysis.union_injections@.len() ==> analysis.union_injections@[index].node.tree == number,
        index < semantic.union_tests@.len() ==> semantic.union_tests@[index].expression.tree == number,
        index < semantic.switches@.len() ==> semantic.switches@[index].statement.tree == number,
        index < semantic.tries@.len() ==> semantic.tries@[index].expression.tree == number,
        index < semantic.flow.returns@.len() ==> semantic.flow.returns@[index].statement.tree == number,
        index < semantic.flow.loop_controls@.len() ==> semantic.flow.loop_controls@[index].statement.tree == number,
        index < semantic.flow.summaries@.len() ==> flow_span(semantic.flow.summaries@[index].subject).tree == number,
{
    let h = Handoff { analysis, semantic, visits: program_visits(analysis.program) };
    law_nodes_carry_the_number_of_their_program(source, number, Ok(*analysis.program));
    if index < analysis.type_annotations@.len() {
        lemma_type_annotations(h, 0, index);
    }
    if index < analysis.expression_annotations@.len() {
        lemma_expression_annotations(h, 0, index);
    }
    if index < analysis.literals@.len() {
        lemma_literal_facts(h, 0, index);
    }
    if index < analysis.numeric_conversions@.len() {
        lemma_conversion_facts(h, 0, index);
    }
    if index < analysis.projections@.len() {
        lemma_projection_facts(h, 0, index);
        lemma_found_expression(h.visits, analysis.projections@[index].node, 0, number);
    }
    if index < analysis.calls@.len() {
        lemma_call_facts(h, 0, index);
    }
    if index < analysis.constructors@.len() {
        lemma_constructor_facts(h, 0, index);
    }
    if index < analysis.union_injections@.len() {
        lemma_injection_facts(h, 0, index);
    }
    if index < semantic.union_tests@.len() {
        lemma_test_facts(h, 0, index);
    }
    if index < semantic.switches@.len() {
        lemma_switch_facts(h, 0, index);
        lemma_found_statement(h.visits, semantic.switches@[index].statement, 0, number);
    }
    if index < semantic.tries@.len() {
        lemma_try_facts(h, 0, index);
    }
    if index < semantic.flow.returns@.len() {
        lemma_return_facts(h, 0, index);
    }
    if index < semantic.flow.loop_controls@.len() {
        lemma_control_facts(h, 0, index);
        lemma_found_loop(h.visits, semantic.flow.loop_controls@[index].statement, 0, number);
    }
    if index < semantic.flow.summaries@.len() {
        lemma_flow_facts(h, 0, index);
    }
}

} // verus!
