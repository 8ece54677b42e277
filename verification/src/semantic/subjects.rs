//! The nodes of a program in source order, each with the function and the loop that it stands in.

use crate::ast::{
    Argument, ArgumentKind, AssignmentTarget, AssignmentTargetSuffix, AssignmentTargetSuffixKind, Block,
    ConditionalExpressionBranch, ConditionalStatementBranch, Declaration, Expression, ExpressionBody,
    ExpressionBodyKind, ExpressionKind, FunctionDeclaration, MapEntry, Parameter, Program, Statement,
    StatementBody, StatementBodyKind, StatementKind, SwitchArm, Type, TypeDeclaration, TypeKind, TypeMember,
    TypeMemberKind,
};
use crate::source::Span;
use vstd::prelude::*;

verus! {

/// Where a node stands: in which function, counted from the first, and in which innermost loop.
#[derive(Clone, Copy, Debug, Eq, PartialEq, Structural)]
pub struct Place {
    pub function: Option<usize>,
    pub innermost: Option<Span>,
}

#[derive(Clone, Copy, Debug)]
pub enum Node<'a> {
    Type(&'a Type),
    Parameter(&'a Parameter),
    Block(&'a Block),
    Statement(&'a Statement),
    StatementBody(&'a StatementBody),
    Expression(&'a Expression),
    ExpressionBody(&'a ExpressionBody),
    SwitchArm(&'a SwitchArm),
}

/// A node together with where it stands.
#[derive(Clone, Copy, Debug)]
pub struct Visit<'a> {
    pub node: Node<'a>,
    pub at: Place,
}

/// Inside of the loop at `span`.
pub open spec fn within(at: Place, span: Span) -> Place {
    Place { function: at.function, innermost: Some(span) }
}

/// The visit of a node alone.
pub open spec fn visit<'a>(node: Node<'a>, at: Place) -> Seq<Visit<'a>> {
    seq![Visit { node, at }]
}

pub open spec fn ty_visits<'a>(ty: &Type, at: Place) -> Seq<Visit<'a>>
    decreases ty, 0int,
{
    visit(Node::Type(ty), at) + match &ty.kind {
        TypeKind::List(element) => ty_visits(element, at),
        TypeKind::Parenthesized(inner) => ty_visits(inner, at),
        TypeKind::Mapping { key, value } => ty_visits(key, at) + ty_visits(value, at),
        TypeKind::Union(alternatives) => types_visits(alternatives@, alternatives@.len() as int, at),
        TypeKind::Tagged { payload, .. } => ty_visits(payload, at),
        _ => seq![],
    }
}

pub open spec fn block_visits<'a>(block: &Block, at: Place) -> Seq<Visit<'a>>
    decreases block, 0int,
{
    visit(Node::Block(block), at) + statements_visits(block.statements@, block.statements@.len() as int, at) + (
    match &block.value {
        Some(value) => expression_visits(value, at),
        None => seq![],
    })
}

pub open spec fn statement_body_visits<'a>(body: &StatementBody, at: Place) -> Seq<Visit<'a>>
    decreases body, 0int,
{
    visit(Node::StatementBody(body), at) + match &body.kind {
        StatementBodyKind::Block(block) => block_visits(block, at),
        StatementBodyKind::Statement(statement) => statement_visits(statement, at),
    }
}

/// The visits of a body that may be missing.
pub open spec fn else_visits<'a>(body: &Option<StatementBody>, at: Place) -> Seq<Visit<'a>>
    decreases body, 0int,
{
    match body {
        Some(body) => statement_body_visits(body, at),
        None => seq![],
    }
}

pub open spec fn expression_body_visits<'a>(body: &ExpressionBody, at: Place) -> Seq<Visit<'a>>
    decreases body, 0int,
{
    visit(Node::ExpressionBody(body), at) + match &body.kind {
        ExpressionBodyKind::Block(block) => block_visits(block, at),
        ExpressionBodyKind::Expression(expression) => expression_visits(expression, at),
    }
}

pub open spec fn statement_branch_visits<'a>(branch: &ConditionalStatementBranch, at: Place) -> Seq<Visit<'a>>
    decreases branch, 0int,
{
    expression_visits(&branch.condition, at) + statement_body_visits(&branch.body, at)
}

pub open spec fn expression_branch_visits<'a>(branch: &ConditionalExpressionBranch, at: Place) -> Seq<Visit<'a>>
    decreases branch, 0int,
{
    expression_visits(&branch.condition, at) + expression_body_visits(&branch.body, at)
}

pub open spec fn arm_visits<'a>(arm: &SwitchArm, at: Place) -> Seq<Visit<'a>>
    decreases arm, 0int,
{
    visit(Node::SwitchArm(arm), at) + ty_visits(&arm.label, at) + statement_body_visits(&arm.body, at)
}

pub open spec fn entry_visits<'a>(entry: &MapEntry, at: Place) -> Seq<Visit<'a>>
    decreases entry, 0int,
{
    expression_visits(&entry.key, at) + expression_visits(&entry.value, at)
}

pub open spec fn argument_visits<'a>(argument: &Argument, at: Place) -> Seq<Visit<'a>>
    decreases argument, 0int,
{
    match &argument.kind {
        ArgumentKind::Positional(value) => expression_visits(value, at),
        ArgumentKind::Named { value, .. } => expression_visits(value, at),
    }
}

pub open spec fn suffix_visits<'a>(suffix: &AssignmentTargetSuffix, at: Place) -> Seq<Visit<'a>>
    decreases suffix, 0int,
{
    match &suffix.kind {
        AssignmentTargetSuffixKind::Index(index) => expression_visits(index, at),
        AssignmentTargetSuffixKind::Member(_) => seq![],
    }
}

pub open spec fn target_visits<'a>(target: &AssignmentTarget, at: Place) -> Seq<Visit<'a>>
    decreases target, 0int,
{
    suffixes_visits(target.suffixes@, target.suffixes@.len() as int, at)
}

/// A statement, then what stands in it; the body of a loop has that loop as its innermost one.
pub open spec fn statement_visits<'a>(statement: &Statement, at: Place) -> Seq<Visit<'a>>
    decreases statement, 0int,
{
    visit(Node::Statement(statement), at) + match &statement.kind {
        StatementKind::Local { initializer, .. } => expression_visits(initializer, at),
        StatementKind::Assignment { target, value, .. } => target_visits(target, at) + expression_visits(value, at),
        StatementKind::Expression(expression) => expression_visits(expression, at),
        StatementKind::Return(value) => match value {
            Some(value) => expression_visits(value, at),
            None => seq![],
        },
        StatementKind::Break => seq![],
        StatementKind::Continue => seq![],
        StatementKind::If { branches, else_body } => statement_branches_visits(
            branches@,
            branches@.len() as int,
            at,
        ) + else_visits(else_body, at),
        StatementKind::While { condition, body } => expression_visits(condition, at) + statement_body_visits(
            body,
            within(at, statement.span),
        ),
        StatementKind::For { iterable, body, .. } => expression_visits(iterable, at) + statement_body_visits(
            body,
            within(at, statement.span),
        ),
        StatementKind::Switch { value, arms, else_body } => expression_visits(value, at) + arms_visits(
            arms@,
            arms@.len() as int,
            at,
        ) + else_visits(else_body, at),
        StatementKind::Block(block) => block_visits(block, at),
    }
}

/// An expression, then what stands in it.
pub open spec fn expression_visits<'a>(expression: &Expression, at: Place) -> Seq<Visit<'a>>
    decreases expression, 0int,
{
    visit(Node::Expression(expression), at) + match &expression.kind {
        ExpressionKind::Unit => seq![],
        ExpressionKind::Identifier(_) => seq![],
        ExpressionKind::Integer => seq![],
        ExpressionKind::Float => seq![],
        ExpressionKind::String(_) => seq![],
        ExpressionKind::Character(_) => seq![],
        ExpressionKind::Boolean(_) => seq![],
        ExpressionKind::Parenthesized(inner) => expression_visits(inner, at),
        ExpressionKind::Conversion { operand, .. } => expression_visits(operand, at),
        ExpressionKind::Unary { operand, .. } => expression_visits(operand, at),
        ExpressionKind::Member { value, .. } => expression_visits(value, at),
        ExpressionKind::List(elements) => expressions_visits(elements@, elements@.len() as int, at),
        ExpressionKind::Mapping(entries) => entries_visits(entries@, entries@.len() as int, at),
        ExpressionKind::TypedEmptyList(ty) => ty_visits(ty, at),
        ExpressionKind::TypedEmptyMap(ty) => ty_visits(ty, at),
        ExpressionKind::Block(block) => block_visits(block, at),
        ExpressionKind::If { branches, else_branch } => expression_branches_visits(
            branches@,
            branches@.len() as int,
            at,
        ) + expression_body_visits(else_branch, at),
        ExpressionKind::Binary { left, right, .. } => expression_visits(left, at) + expression_visits(right, at),
        ExpressionKind::Is { value, ty, .. } => expression_visits(value, at) + ty_visits(ty, at),
        ExpressionKind::Call { callee, arguments } => expression_visits(callee, at) + arguments_visits(
            arguments@,
            arguments@.len() as int,
            at,
        ),
        ExpressionKind::Index { value, index } => expression_visits(value, at) + expression_visits(index, at),
        ExpressionKind::Try { value, .. } => expression_visits(value, at),
    }
}

/// The visits of the first `count` nodes of a list.
pub open spec fn types_visits<'a>(nodes: Seq<Type>, count: int, at: Place) -> Seq<Visit<'a>>
    decreases nodes, count,
{
    if count <= 0 || count > nodes.len() {
        seq![]
    } else {
        types_visits(nodes, count - 1, at) + ty_visits(&nodes[count - 1], at)
    }
}

/// The visits of the first `count` nodes of a list.
pub open spec fn statements_visits<'a>(nodes: Seq<Statement>, count: int, at: Place) -> Seq<Visit<'a>>
    decreases nodes, count,
{
    if count <= 0 || count > nodes.len() {
        seq![]
    } else {
        statements_visits(nodes, count - 1, at) + statement_visits(&nodes[count - 1], at)
    }
}

/// The visits of the first `count` nodes of a list.
pub open spec fn expressions_visits<'a>(nodes: Seq<Expression>, count: int, at: Place) -> Seq<Visit<'a>>
    decreases nodes, count,
{
    if count <= 0 || count > nodes.len() {
        seq![]
    } else {
        expressions_visits(nodes, count - 1, at) + expression_visits(&nodes[count - 1], at)
    }
}

/// The visits of the first `count` nodes of a list.
pub open spec fn entries_visits<'a>(nodes: Seq<MapEntry>, count: int, at: Place) -> Seq<Visit<'a>>
    decreases nodes, count,
{
    if count <= 0 || count > nodes.len() {
        seq![]
    } else {
        entries_visits(nodes, count - 1, at) + entry_visits(&nodes[count - 1], at)
    }
}

/// The visits of the first `count` nodes of a list.
pub open spec fn arguments_visits<'a>(nodes: Seq<Argument>, count: int, at: Place) -> Seq<Visit<'a>>
    decreases nodes, count,
{
    if count <= 0 || count > nodes.len() {
        seq![]
    } else {
        arguments_visits(nodes, count - 1, at) + argument_visits(&nodes[count - 1], at)
    }
}

/// The visits of the first `count` nodes of a list.
pub open spec fn statement_branches_visits<'a>(
    nodes: Seq<ConditionalStatementBranch>,
    count: int,
    at: Place,
) -> Seq<Visit<'a>>
    decreases nodes, count,
{
    if count <= 0 || count > nodes.len() {
        seq![]
    } else {
        statement_branches_visits(nodes, count - 1, at) + statement_branch_visits(&nodes[count - 1], at)
    }
}

/// The visits of the first `count` nodes of a list.
pub open spec fn expression_branches_visits<'a>(
    nodes: Seq<ConditionalExpressionBranch>,
    count: int,
    at: Place,
) -> Seq<Visit<'a>>
    decreases nodes, count,
{
    if count <= 0 || count > nodes.len() {
        seq![]
    } else {
        expression_branches_visits(nodes, count - 1, at) + expression_branch_visits(&nodes[count - 1], at)
    }
}

/// The visits of the first `count` nodes of a list.
pub open spec fn arms_visits<'a>(nodes: Seq<SwitchArm>, count: int, at: Place) -> Seq<Visit<'a>>
    decreases nodes, count,
{
    if count <= 0 || count > nodes.len() {
        seq![]
    } else {
        arms_visits(nodes, count - 1, at) + arm_visits(&nodes[count - 1], at)
    }
}

/// The visits of the first `count` nodes of a list.
pub open spec fn suffixes_visits<'a>(nodes: Seq<AssignmentTargetSuffix>, count: int, at: Place) -> Seq<Visit<'a>>
    decreases nodes, count,
{
    if count <= 0 || count > nodes.len() {
        seq![]
    } else {
        suffixes_visits(nodes, count - 1, at) + suffix_visits(&nodes[count - 1], at)
    }
}

/// The visits of the first `count` members of a type declaration.
pub open spec fn members_visits<'a>(members: Seq<TypeMember>, count: int, at: Place) -> Seq<Visit<'a>>
    decreases count,
{
    if count <= 0 || count > members.len() {
        seq![]
    } else {
        members_visits(members, count - 1, at) + ty_visits(member_type(members[count - 1]), at)
    }
}

pub open spec fn member_type(member: TypeMember) -> &'static Type {
    match &member.kind {
        TypeMemberKind::Named { ty, .. } => ty,
        TypeMemberKind::Unnamed(ty) => ty,
    }
}

/// The visits of the first `count` parameters of a function.
pub open spec fn parameters_visits<'a>(parameters: Seq<Parameter>, count: int, at: Place) -> Seq<Visit<'a>>
    decreases count,
{
    if count <= 0 || count > parameters.len() {
        seq![]
    } else {
        parameters_visits(parameters, count - 1, at) + visit(Node::Parameter(&parameters[count - 1]), at)
            + ty_visits(&parameters[count - 1].ty, at)
    }
}

/// The parameters, the result type and the body of a function.
pub open spec fn function_visits<'a>(function: &FunctionDeclaration, at: Place) -> Seq<Visit<'a>> {
    parameters_visits(function.parameters@, function.parameters@.len() as int, at) + (match &function.return_type {
        Some(ty) => ty_visits(ty, at),
        None => seq![],
    }) + block_visits(&function.body, at)
}

/// How many of the first `count` declarations declare functions.
pub open spec fn functions_before(declarations: Seq<Declaration>, count: int) -> nat
    decreases count,
{
    if count <= 0 {
        0
    } else if declarations[count - 1] is Function {
        functions_before(declarations, count - 1) + 1
    } else {
        functions_before(declarations, count - 1)
    }
}

/// Outside of any loop, in the function with the given number or in none.
pub open spec fn top(function: Option<usize>) -> Place {
    Place { function, innermost: None }
}

/// The visits of the first `count` declarations.
pub open spec fn declarations_visits<'a>(declarations: Seq<Declaration>, count: int) -> Seq<Visit<'a>>
    decreases count,
{
    if count <= 0 || count > declarations.len() {
        seq![]
    } else {
        declarations_visits(declarations, count - 1) + match &declarations[count - 1] {
            Declaration::Type(declaration) => members_visits(
                declaration.members@,
                declaration.members@.len() as int,
                top(None),
            ),
            Declaration::Function(function) => function_visits(
                function,
                top(Some(functions_before(declarations, count - 1) as usize)),
            ),
        }
    }
}

/// The types, parameters, blocks, statements, bodies, expressions and arms of a program in source order.
pub open spec fn program_visits<'a>(program: &Program) -> Seq<Visit<'a>> {
    declarations_visits(program.declarations@, program.declarations@.len() as int)
}

proof fn lemma_join<'a>(before: Seq<Visit<'a>>, first: Seq<Visit<'a>>, second: Seq<Visit<'a>>)
    ensures
        (before + first) + second == before + (first + second),
{
    assert((before + first) + second =~= before + (first + second));
}

proof fn lemma_push<'a>(before: Seq<Visit<'a>>, node: Node<'a>, at: Place)
    ensures
        before.push(Visit { node, at }) == before + visit(node, at),
{
    assert(before.push(Visit { node, at }) =~= before + visit(node, at));
}

broadcast proof fn lemma_joined<'a>(before: Seq<Visit<'a>>, first: Seq<Visit<'a>>, second: Seq<Visit<'a>>)
    ensures
        #[trigger] ((before + first) + second) == before + (first + second),
{
    assert((before + first) + second =~= before + (first + second));
}

broadcast proof fn lemma_nothing<'a>(before: Seq<Visit<'a>>)
    ensures
        #[trigger] (before + Seq::<Visit<'a>>::empty()) == before,
{
    assert(before + Seq::<Visit<'a>>::empty() =~= before);
}

broadcast group group_join {
    lemma_joined,
    lemma_nothing,
}

struct Walk<'a> {
    visits: Vec<Visit<'a>>,
}

impl<'a> Walk<'a> {
    fn push(&mut self, node: Node<'a>, at: Place)
        ensures
            final(self).visits@ == old(self).visits@ + visit(node, at),
    {
        proof {
            lemma_push(self.visits@, node, at);
        }
        self.visits.push(Visit { node, at });
    }

    fn types(&mut self, nodes: &'a Vec<Type>, at: Place)
        ensures
            final(self).visits@ == old(self).visits@ + types_visits(nodes@, nodes@.len() as int, at),
        decreases nodes, 0int,
    {
        let ghost before = self.visits@;
        assert(before + Seq::<Visit<'a>>::empty() =~= before);
        let mut index: usize = 0;
        while index < nodes.len()
            invariant
                index <= nodes@.len(),
                self.visits@ == before + types_visits(nodes@, index as int, at),
            decreases nodes@.len() - index,
        {
            self.ty(&nodes[index], at);
            proof {
                lemma_join(before, types_visits(nodes@, index as int, at), ty_visits(&nodes@[index as int], at));
            }
            index += 1;
        }
    }

    fn statements(&mut self, nodes: &'a Vec<Statement>, at: Place)
        ensures
            final(self).visits@ == old(self).visits@ + statements_visits(nodes@, nodes@.len() as int, at),
        decreases nodes, 0int,
    {
        let ghost before = self.visits@;
        assert(before + Seq::<Visit<'a>>::empty() =~= before);
        let mut index: usize = 0;
        while index < nodes.len()
            invariant
                index <= nodes@.len(),
                self.visits@ == before + statements_visits(nodes@, index as int, at),
            decreases nodes@.len() - index,
        {
            self.statement(&nodes[index], at);
            proof {
                lemma_join(
                    before,
                    statements_visits(nodes@, index as int, at),
                    statement_visits(&nodes@[index as int], at),
                );
            }
            index += 1;
        }
    }

    fn expressions(&mut self, nodes: &'a Vec<Expression>, at: Place)
        ensures
            final(self).visits@ == old(self).visits@ + expressions_visits(nodes@, nodes@.len() as int, at),
        decreases nodes, 0int,
    {
        let ghost before = self.visits@;
        assert(before + Seq::<Visit<'a>>::empty() =~= before);
        let mut index: usize = 0;
        while index < nodes.len()
            invariant
                index <= nodes@.len(),
                self.visits@ == before + expressions_visits(nodes@, index as int, at),
            decreases nodes@.len() - index,
        {
            self.expression(&nodes[index], at);
            proof {
                lemma_join(
                    before,
                    expressions_visits(nodes@, index as int, at),
                    expression_visits(&nodes@[index as int], at),
                );
            }
            index += 1;
        }
    }

    fn entries(&mut self, nodes: &'a Vec<MapEntry>, at: Place)
        ensures
            final(self).visits@ == old(self).visits@ + entries_visits(nodes@, nodes@.len() as int, at),
        decreases nodes, 0int,
    {
        let ghost before = self.visits@;
        assert(before + Seq::<Visit<'a>>::empty() =~= before);
        let mut index: usize = 0;
        while index < nodes.len()
            invariant
                index <= nodes@.len(),
                self.visits@ == before + entries_visits(nodes@, index as int, at),
            decreases nodes@.len() - index,
        {
            self.entry(&nodes[index], at);
            proof {
                lemma_join(before, entries_visits(nodes@, index as int, at), entry_visits(&nodes@[index as int], at));
            }
            index += 1;
        }
    }

    fn arguments(&mut self, nodes: &'a Vec<Argument>, at: Place)
        ensures
            final(self).visits@ == old(self).visits@ + arguments_visits(nodes@, nodes@.len() as int, at),
        decreases nodes, 0int,
    {
        let ghost before = self.visits@;
        assert(before + Seq::<Visit<'a>>::empty() =~= before);
        let mut index: usize = 0;
        while index < nodes.len()
            invariant
                index <= nodes@.len(),
                self.visits@ == before + arguments_visits(nodes@, index as int, at),
            decreases nodes@.len() - index,
        {
            self.argument(&nodes[index], at);
            proof {
                lemma_join(
                    before,
                    arguments_visits(nodes@, index as int, at),
                    argument_visits(&nodes@[index as int], at),
                );
            }
            index += 1;
        }
    }

    fn statement_branches(&mut self, nodes: &'a Vec<ConditionalStatementBranch>, at: Place)
        ensures
            final(self).visits@ == old(self).visits@ + statement_branches_visits(nodes@, nodes@.len() as int, at),
        decreases nodes, 0int,
    {
        let ghost before = self.visits@;
        assert(before + Seq::<Visit<'a>>::empty() =~= before);
        let mut index: usize = 0;
        while index < nodes.len()
            invariant
                index <= nodes@.len(),
                self.visits@ == before + statement_branches_visits(nodes@, index as int, at),
            decreases nodes@.len() - index,
        {
            self.statement_branch(&nodes[index], at);
            proof {
                lemma_join(
                    before,
                    statement_branches_visits(nodes@, index as int, at),
                    statement_branch_visits(&nodes@[index as int], at),
                );
            }
            index += 1;
        }
    }

    fn expression_branches(&mut self, nodes: &'a Vec<ConditionalExpressionBranch>, at: Place)
        ensures
            final(self).visits@ == old(self).visits@ + expression_branches_visits(nodes@, nodes@.len() as int, at),
        decreases nodes, 0int,
    {
        let ghost before = self.visits@;
        assert(before + Seq::<Visit<'a>>::empty() =~= before);
        let mut index: usize = 0;
        while index < nodes.len()
            invariant
                index <= nodes@.len(),
                self.visits@ == before + expression_branches_visits(nodes@, index as int, at),
            decreases nodes@.len() - index,
        {
            self.expression_branch(&nodes[index], at);
            proof {
                lemma_join(
                    before,
                    expression_branches_visits(nodes@, index as int, at),
                    expression_branch_visits(&nodes@[index as int], at),
                );
            }
            index += 1;
        }
    }

    fn arms(&mut self, nodes: &'a Vec<SwitchArm>, at: Place)
        ensures
            final(self).visits@ == old(self).visits@ + arms_visits(nodes@, nodes@.len() as int, at),
        decreases nodes, 0int,
    {
        let ghost before = self.visits@;
        assert(before + Seq::<Visit<'a>>::empty() =~= before);
        let mut index: usize = 0;
        while index < nodes.len()
            invariant
                index <= nodes@.len(),
                self.visits@ == before + arms_visits(nodes@, index as int, at),
            decreases nodes@.len() - index,
        {
            self.arm(&nodes[index], at);
            proof {
                lemma_join(before, arms_visits(nodes@, index as int, at), arm_visits(&nodes@[index as int], at));
            }
            index += 1;
        }
    }

    fn suffixes(&mut self, nodes: &'a Vec<AssignmentTargetSuffix>, at: Place)
        ensures
            final(self).visits@ == old(self).visits@ + suffixes_visits(nodes@, nodes@.len() as int, at),
        decreases nodes, 0int,
    {
        let ghost before = self.visits@;
        assert(before + Seq::<Visit<'a>>::empty() =~= before);
        let mut index: usize = 0;
        while index < nodes.len()
            invariant
                index <= nodes@.len(),
                self.visits@ == before + suffixes_visits(nodes@, index as int, at),
            decreases nodes@.len() - index,
        {
            self.suffix(&nodes[index], at);
            proof {
                lemma_join(before, suffixes_visits(nodes@, index as int, at), suffix_visits(&nodes@[index as int], at));
            }
            index += 1;
        }
    }

    #[verifier::spinoff_prover]
    fn ty(&mut self, ty: &'a Type, at: Place)
        ensures
            final(self).visits@ == old(self).visits@ + ty_visits(ty, at),
        decreases ty, 0int,
    {
        broadcast use group_join;
        self.push(Node::Type(ty), at);
        match &ty.kind {
            TypeKind::List(element) => self.ty(element, at),
            TypeKind::Parenthesized(inner) => self.ty(inner, at),
            TypeKind::Mapping { key, value } => {
                self.ty(key, at);
                self.ty(value, at);
            },
            TypeKind::Union(alternatives) => self.types(alternatives, at),
            TypeKind::Tagged { payload, .. } => self.ty(payload, at),
            TypeKind::Unit | TypeKind::Primitive(_) | TypeKind::Named(_) => {},
        }
    }

    fn block(&mut self, block: &'a Block, at: Place)
        ensures
            final(self).visits@ == old(self).visits@ + block_visits(block, at),
        decreases block, 0int,
    {
        broadcast use group_join;
        self.push(Node::Block(block), at);
        self.statements(&block.statements, at);
        match &block.value {
            Some(value) => self.expression(value, at),
            None => {},
        }
    }

    fn statement_body(&mut self, body: &'a StatementBody, at: Place)
        ensures
            final(self).visits@ == old(self).visits@ + statement_body_visits(body, at),
        decreases body, 0int,
    {
        broadcast use group_join;
        self.push(Node::StatementBody(body), at);
        match &body.kind {
            StatementBodyKind::Block(block) => self.block(block, at),
            StatementBodyKind::Statement(statement) => self.statement(statement, at),
        }
    }

    fn else_body(&mut self, body: &'a Option<StatementBody>, at: Place)
        ensures
            final(self).visits@ == old(self).visits@ + else_visits(body, at),
        decreases body, 0int,
    {
        broadcast use group_join;
        match body {
            Some(body) => self.statement_body(body, at),
            None => {},
        }
    }

    fn expression_body(&mut self, body: &'a ExpressionBody, at: Place)
        ensures
            final(self).visits@ == old(self).visits@ + expression_body_visits(body, at),
        decreases body, 0int,
    {
        broadcast use group_join;
        self.push(Node::ExpressionBody(body), at);
        match &body.kind {
            ExpressionBodyKind::Block(block) => self.block(block, at),
            ExpressionBodyKind::Expression(expression) => self.expression(expression, at),
        }
    }

    fn statement_branch(&mut self, branch: &'a ConditionalStatementBranch, at: Place)
        ensures
            final(self).visits@ == old(self).visits@ + statement_branch_visits(branch, at),
        decreases branch, 0int,
    {
        broadcast use group_join;
        self.expression(&branch.condition, at);
        self.statement_body(&branch.body, at);
    }

    fn expression_branch(&mut self, branch: &'a ConditionalExpressionBranch, at: Place)
        ensures
            final(self).visits@ == old(self).visits@ + expression_branch_visits(branch, at),
        decreases branch, 0int,
    {
        broadcast use group_join;
        self.expression(&branch.condition, at);
        self.expression_body(&branch.body, at);
    }

    fn arm(&mut self, arm: &'a SwitchArm, at: Place)
        ensures
            final(self).visits@ == old(self).visits@ + arm_visits(arm, at),
        decreases arm, 0int,
    {
        broadcast use group_join;
        self.push(Node::SwitchArm(arm), at);
        self.ty(&arm.label, at);
        self.statement_body(&arm.body, at);
    }

    fn entry(&mut self, entry: &'a MapEntry, at: Place)
        ensures
            final(self).visits@ == old(self).visits@ + entry_visits(entry, at),
        decreases entry, 0int,
    {
        broadcast use group_join;
        self.expression(&entry.key, at);
        self.expression(&entry.value, at);
    }

    fn argument(&mut self, argument: &'a Argument, at: Place)
        ensures
            final(self).visits@ == old(self).visits@ + argument_visits(argument, at),
        decreases argument, 0int,
    {
        match &argument.kind {
            ArgumentKind::Positional(value) => self.expression(value, at),
            ArgumentKind::Named { value, .. } => self.expression(value, at),
        }
    }

    fn suffix(&mut self, suffix: &'a AssignmentTargetSuffix, at: Place)
        ensures
            final(self).visits@ == old(self).visits@ + suffix_visits(suffix, at),
        decreases suffix, 0int,
    {
        broadcast use group_join;
        match &suffix.kind {
            AssignmentTargetSuffixKind::Index(index) => self.expression(index, at),
            AssignmentTargetSuffixKind::Member(_) => {},
        }
    }

    fn target(&mut self, target: &'a AssignmentTarget, at: Place)
        ensures
            final(self).visits@ == old(self).visits@ + target_visits(target, at),
        decreases target, 0int,
    {
        self.suffixes(&target.suffixes, at);
    }

    #[verifier::spinoff_prover]
    fn statement(&mut self, statement: &'a Statement, at: Place)
        ensures
            final(self).visits@ == old(self).visits@ + statement_visits(statement, at),
        decreases statement, 0int,
    {
        broadcast use group_join;
        self.push(Node::Statement(statement), at);
        let inside = Place { function: at.function, innermost: Some(statement.span) };
        match &statement.kind {
            StatementKind::Local { initializer, .. } => self.expression(initializer, at),
            StatementKind::Assignment { target, value, .. } => {
                self.target(target, at);
                self.expression(value, at);
            },
            StatementKind::Expression(expression) => self.expression(expression, at),
            StatementKind::Return(value) => match value {
                Some(value) => self.expression(value, at),
                None => {},
            },
            StatementKind::Break | StatementKind::Continue => {},
            StatementKind::If { branches, else_body } => {
                self.statement_branches(branches, at);
                self.else_body(else_body, at);
            },
            StatementKind::While { condition, body } => {
                self.expression(condition, at);
                self.statement_body(body, inside);
            },
            StatementKind::For { iterable, body, .. } => {
                self.expression(iterable, at);
                self.statement_body(body, inside);
            },
            StatementKind::Switch { value, arms, else_body } => {
                self.expression(value, at);
                self.arms(arms, at);
                self.else_body(else_body, at);
            },
            StatementKind::Block(block) => self.block(block, at),
        }
    }

    #[verifier::spinoff_prover]
    fn expression(&mut self, expression: &'a Expression, at: Place)
        ensures
            final(self).visits@ == old(self).visits@ + expression_visits(expression, at),
        decreases expression, 0int,
    {
        broadcast use group_join;
        self.push(Node::Expression(expression), at);
        match &expression.kind {
            ExpressionKind::Unit
            | ExpressionKind::Identifier(_)
            | ExpressionKind::Integer
            | ExpressionKind::Float
            | ExpressionKind::String(_)
            | ExpressionKind::Character(_)
            | ExpressionKind::Boolean(_) => {},
            ExpressionKind::Parenthesized(inner) => self.expression(inner, at),
            ExpressionKind::Conversion { operand, .. } => self.expression(operand, at),
            ExpressionKind::Unary { operand, .. } => self.expression(operand, at),
            ExpressionKind::Member { value, .. } => self.expression(value, at),
            ExpressionKind::List(elements) => self.expressions(elements, at),
            ExpressionKind::Mapping(entries) => self.entries(entries, at),
            ExpressionKind::TypedEmptyList(ty) => self.ty(ty, at),
            ExpressionKind::TypedEmptyMap(ty) => self.ty(ty, at),
            ExpressionKind::Block(block) => self.block(block, at),
            ExpressionKind::If { branches, else_branch } => {
                self.expression_branches(branches, at);
                self.expression_body(else_branch, at);
            },
            ExpressionKind::Binary { left, right, .. } => {
                self.expression(left, at);
                self.expression(right, at);
            },
            ExpressionKind::Is { value, ty, .. } => {
                self.expression(value, at);
                self.ty(ty, at);
            },
            ExpressionKind::Call { callee, arguments } => {
                self.expression(callee, at);
                self.arguments(arguments, at);
            },
            ExpressionKind::Index { value, index } => {
                self.expression(value, at);
                self.expression(index, at);
            },
            ExpressionKind::Try { value, .. } => self.expression(value, at),
        }
    }

    fn members(&mut self, declaration: &'a TypeDeclaration, at: Place)
        ensures
            final(self).visits@ == old(self).visits@ + members_visits(
                declaration.members@,
                declaration.members@.len() as int,
                at,
            ),
    {
        let ghost before = self.visits@;
        assert(before + Seq::<Visit<'a>>::empty() =~= before);
        let mut index: usize = 0;
        while index < declaration.members.len()
            invariant
                index <= declaration.members@.len(),
                self.visits@ == before + members_visits(declaration.members@, index as int, at),
            decreases declaration.members@.len() - index,
        {
            let member = &declaration.members[index];
            let ghost done = members_visits(declaration.members@, index as int, at);
            match &member.kind {
                TypeMemberKind::Named { ty, .. } => self.ty(ty, at),
                TypeMemberKind::Unnamed(ty) => self.ty(ty, at),
            }
            proof {
                lemma_join(before, done, ty_visits(member_type(*member), at));
            }
            index += 1;
        }
    }

    fn function(&mut self, function: &'a FunctionDeclaration, at: Place)
        ensures
            final(self).visits@ == old(self).visits@ + function_visits(function, at),
    {
        broadcast use group_join;
        let ghost before = self.visits@;
        assert(before + Seq::<Visit<'a>>::empty() =~= before);
        let mut index: usize = 0;
        while index < function.parameters.len()
            invariant
                index <= function.parameters@.len(),
                self.visits@ == before + parameters_visits(function.parameters@, index as int, at),
            decreases function.parameters@.len() - index,
        {
            let parameter = &function.parameters[index];
            let ghost done = parameters_visits(function.parameters@, index as int, at);
            self.push(Node::Parameter(parameter), at);
            self.ty(&parameter.ty, at);
            proof {
                lemma_join(before, done, visit(Node::Parameter(parameter), at));
                lemma_join(before, done + visit(Node::Parameter(parameter), at), ty_visits(&parameter.ty, at));
            }
            index += 1;
        }
        match &function.return_type {
            Some(ty) => self.ty(ty, at),
            None => {},
        }
        self.block(&function.body, at);
    }
}

/// Lists the nodes of a program in source order.
pub fn visit_program<'a>(program: &'a Program) -> (result: Vec<Visit<'a>>)
    ensures
        result@ == program_visits(program),
{
    let mut walk = Walk { visits: Vec::new() };
    let mut functions: usize = 0;
    let mut index: usize = 0;
    while index < program.declarations.len()
        invariant
            index <= program.declarations@.len(),
            functions <= index,
            functions == functions_before(program.declarations@, index as int),
            walk.visits@ == declarations_visits(program.declarations@, index as int),
        decreases program.declarations@.len() - index,
    {
        match &program.declarations[index] {
            Declaration::Type(declaration) => walk.members(
                declaration,
                Place { function: None, innermost: None },
            ),
            Declaration::Function(function) => {
                walk.function(function, Place { function: Some(functions), innermost: None });
                functions += 1;
            },
        }
        index += 1;
    }
    walk.visits
}

} // verus!
