//! The syntax tree, and the shape of a tree that contracts speak of.

use crate::source::Span;
use vstd::prelude::*;

verus! {

#[derive(Debug, Eq, PartialEq)]
pub struct Program {
    pub declarations: Vec<Declaration>,
    pub span: Span,
}

#[derive(Debug, Eq, PartialEq)]
pub enum Declaration {
    Type(TypeDeclaration),
    Function(FunctionDeclaration),
}

#[derive(Debug, Eq, PartialEq)]
pub struct TypeDeclaration {
    pub name: Identifier,
    pub members: Vec<TypeMember>,
    pub span: Span,
}

#[derive(Debug, Eq, PartialEq)]
pub struct TypeMember {
    pub kind: TypeMemberKind,
    pub span: Span,
}

#[derive(Debug, Eq, PartialEq)]
pub enum TypeMemberKind {
    Named { name: Identifier, referenced: bool, ty: Type },
    Unnamed(Type),
}

#[derive(Debug, Eq, PartialEq)]
pub struct FunctionDeclaration {
    pub name: Identifier,
    pub parameters: Vec<Parameter>,
    pub return_type: Option<Type>,
    pub body: Block,
    pub span: Span,
}

#[derive(Debug, Eq, PartialEq)]
pub struct Parameter {
    pub mutable: bool,
    pub name: Identifier,
    pub ty: Type,
    pub span: Span,
}

#[derive(Clone, Copy, Debug, Eq, PartialEq, Structural)]
pub struct Identifier {
    pub span: Span,
}

#[derive(Debug, Eq, PartialEq)]
pub struct Type {
    pub kind: TypeKind,
    pub span: Span,
}

#[derive(Debug, Eq, PartialEq)]
pub enum TypeKind {
    Unit,
    Primitive(PrimitiveType),
    Named(Identifier),
    Tagged { tag: Identifier, payload: Box<Type> },
    List(Box<Type>),
    Mapping { key: Box<Type>, value: Box<Type> },
    Parenthesized(Box<Type>),
    Union(Vec<Type>),
}

#[derive(Clone, Copy, Debug, Eq, PartialEq, Structural)]
pub enum PrimitiveType {
    Int,
    Float,
    Str,
    Bool,
    Char,
}

#[derive(Debug, Eq, PartialEq)]
pub struct Block {
    pub statements: Vec<Statement>,
    pub value: Option<Box<Expression>>,
    pub span: Span,
}

#[derive(Debug, Eq, PartialEq)]
pub struct Statement {
    pub kind: StatementKind,
    pub span: Span,
}

#[derive(Debug, Eq, PartialEq)]
pub enum StatementKind {
    Local { mutable: bool, name: Identifier, initializer: Expression },
    Assignment {
        target: AssignmentTarget,
        operator: AssignmentOperator,
        operator_span: Span,
        value: Expression,
    },
    Expression(Expression),
    Return(Option<Expression>),
    Break,
    Continue,
    If { branches: Vec<ConditionalStatementBranch>, else_body: Option<StatementBody> },
    While { condition: Expression, body: StatementBody },
    For { binding: Identifier, iterable: Expression, body: StatementBody },
    Switch { value: Expression, arms: Vec<SwitchArm>, else_body: Option<StatementBody> },
    Block(Block),
}

#[derive(Debug, Eq, PartialEq)]
pub struct StatementBody {
    pub kind: StatementBodyKind,
    pub span: Span,
}

#[derive(Debug, Eq, PartialEq)]
pub enum StatementBodyKind {
    Block(Block),
    Statement(Box<Statement>),
}

#[derive(Debug, Eq, PartialEq)]
pub struct ConditionalStatementBranch {
    pub condition: Expression,
    pub body: StatementBody,
    pub span: Span,
}

#[derive(Debug, Eq, PartialEq)]
pub struct SwitchArm {
    pub label: Type,
    pub body: StatementBody,
    pub span: Span,
}

#[derive(Debug, Eq, PartialEq)]
pub struct AssignmentTarget {
    pub root: Identifier,
    pub suffixes: Vec<AssignmentTargetSuffix>,
    pub span: Span,
}

#[derive(Debug, Eq, PartialEq)]
pub struct AssignmentTargetSuffix {
    pub kind: AssignmentTargetSuffixKind,
    pub span: Span,
}

#[derive(Debug, Eq, PartialEq)]
pub enum AssignmentTargetSuffixKind {
    Member(Member),
    Index(Expression),
}

#[derive(Clone, Copy, Debug, Eq, PartialEq, Structural)]
pub enum AssignmentOperator {
    Assign,
    Add,
    Subtract,
    Multiply,
    Divide,
    Remainder,
    BitwiseAnd,
    BitwiseOr,
    BitwiseXor,
    ShiftLeft,
    ShiftRight,
}

#[derive(Debug, Eq, PartialEq)]
pub struct Expression {
    pub kind: ExpressionKind,
    pub span: Span,
}

#[allow(inconsistent_fields)]
#[derive(Debug, Eq, PartialEq)]
pub enum ExpressionKind {
    Unit,
    Identifier(Identifier),
    Integer,
    Float,
    String(Vec<u8>),
    Character(u8),
    Boolean(bool),
    Parenthesized(Box<Expression>),
    Conversion { destination: PrimitiveType, operand: Box<Expression> },
    List(Vec<Expression>),
    TypedEmptyList(Type),
    Mapping(Vec<MapEntry>),
    TypedEmptyMap(Type),
    Block(Block),
    If { branches: Vec<ConditionalExpressionBranch>, else_branch: ExpressionBody },
    Unary { operator: UnaryOperator, operator_span: Span, operand: Box<Expression> },
    Binary {
        left: Box<Expression>,
        operator: BinaryOperator,
        operator_span: Span,
        right: Box<Expression>,
    },
    Is { value: Box<Expression>, operator_span: Span, ty: Type },
    Call { callee: Box<Expression>, arguments: Vec<Argument> },
    Index { value: Box<Expression>, index: Box<Expression> },
    Member { value: Box<Expression>, member: Member },
    Try { value: Box<Expression>, operator_span: Span },
}

#[derive(Debug, Eq, PartialEq)]
pub struct ExpressionBody {
    pub kind: ExpressionBodyKind,
    pub span: Span,
}

#[derive(Debug, Eq, PartialEq)]
pub enum ExpressionBodyKind {
    Expression(Box<Expression>),
    Block(Block),
}

#[derive(Debug, Eq, PartialEq)]
pub struct ConditionalExpressionBranch {
    pub condition: Expression,
    pub body: ExpressionBody,
    pub span: Span,
}

#[derive(Debug, Eq, PartialEq)]
pub struct Argument {
    pub kind: ArgumentKind,
    pub span: Span,
}

#[derive(Debug, Eq, PartialEq)]
pub enum ArgumentKind {
    Positional(Expression),
    Named { name: Identifier, value: Expression },
}

#[derive(Debug, Eq, PartialEq)]
pub struct MapEntry {
    pub key: Expression,
    pub value: Expression,
    pub span: Span,
}

#[derive(Clone, Copy, Debug, Eq, PartialEq, Structural)]
pub enum Member {
    Named(Identifier),
    TupleIndex(Span),
}

#[derive(Clone, Copy, Debug, Eq, PartialEq, Structural)]
pub enum UnaryOperator {
    LogicalNot,
    BitwiseNot,
    Plus,
    Minus,
}

#[derive(Clone, Copy, Debug, Eq, PartialEq, Structural)]
pub enum BinaryOperator {
    LogicalOr,
    LogicalAnd,
    BitwiseOr,
    BitwiseXor,
    BitwiseAnd,
    Equal,
    NotEqual,
    Less,
    LessEqual,
    Greater,
    GreaterEqual,
    In,
    ShiftLeft,
    ShiftRight,
    Add,
    Subtract,
    Multiply,
    Divide,
    Remainder,
}

/// What a node of a syntax tree is, without its children.
#[allow(inconsistent_fields)]
pub enum Label {
    Program,
    TypeDeclaration { name: Span },
    NamedMember { name: Span, referenced: bool },
    UnnamedMember,
    Function { name: Span, has_return_type: bool },
    Parameter { mutable: bool, name: Span },
    UnitType,
    PrimitiveType(PrimitiveType),
    NamedType(Span),
    TaggedType(Span),
    ListType,
    MapType,
    ParenthesizedType,
    UnionType,
    Block { has_value: bool },
    Local { mutable: bool, name: Span },
    Assignment { operator: AssignmentOperator, operator_span: Span },
    ExpressionStatement,
    Return,
    Break,
    Continue,
    IfStatement { has_else: bool },
    While,
    For { binding: Span },
    Switch { has_else: bool },
    BlockStatement,
    BlockBody,
    StatementBody,
    ExpressionBody,
    Branch,
    Arm,
    Target { root: Span },
    MemberSuffix(Member),
    IndexSuffix,
    Unit,
    Identifier(Span),
    Integer,
    Float,
    Text(Seq<u8>),
    Character(u8),
    Boolean(bool),
    Parenthesized,
    Conversion(PrimitiveType),
    List,
    TypedEmptyList,
    MapLiteral,
    TypedEmptyMap,
    BlockExpression,
    IfExpression,
    Unary { operator: UnaryOperator, operator_span: Span },
    Binary { operator: BinaryOperator, operator_span: Span },
    Is { operator_span: Span },
    Call,
    Index,
    Member(Member),
    Try { operator_span: Span },
    Positional,
    NamedArgument(Span),
    Entry,
}

/// A syntax tree with its children in source order.
pub struct Tree {
    pub label: Label,
    pub span: Span,
    pub children: Seq<Tree>,
}

/// A node without children.
#[verifier::opaque]
pub open spec fn leaf(label: Label, span: Span) -> Tree {
    Tree { label, span, children: seq![] }
}

/// A node with one child.
#[verifier::opaque]
pub open spec fn node1(label: Label, span: Span, child: Tree) -> Tree {
    Tree { label, span, children: seq![child] }
}

/// A node with two children.
#[verifier::opaque]
pub open spec fn node2(label: Label, span: Span, first: Tree, second: Tree) -> Tree {
    Tree { label, span, children: seq![first, second] }
}

/// A node with any number of children.
#[verifier::opaque]
pub open spec fn node(label: Label, span: Span, children: Seq<Tree>) -> Tree {
    Tree { label, span, children }
}

pub open spec fn optional(tree: Option<Tree>) -> Seq<Tree> {
    match tree {
        Some(tree) => seq![tree],
        None => seq![],
    }
}

#[verifier::opaque]
pub open spec fn block_node(span: Span, statements: Seq<Tree>, value: Option<Tree>) -> Tree {
    Tree { label: Label::Block { has_value: value is Some }, span, children: statements + optional(value) }
}

#[verifier::opaque]
pub open spec fn return_node(span: Span, value: Option<Tree>) -> Tree {
    Tree { label: Label::Return, span, children: optional(value) }
}

#[verifier::opaque]
pub open spec fn if_node(span: Span, branches: Seq<Tree>, other: Option<Tree>) -> Tree {
    Tree { label: Label::IfStatement { has_else: other is Some }, span, children: branches + optional(other) }
}

#[verifier::opaque]
pub open spec fn switch_node(span: Span, value: Tree, arms: Seq<Tree>, other: Option<Tree>) -> Tree {
    Tree {
        label: Label::Switch { has_else: other is Some },
        span,
        children: seq![value] + arms + optional(other),
    }
}

#[verifier::opaque]
pub open spec fn if_expression_node(span: Span, branches: Seq<Tree>, other: Tree) -> Tree {
    Tree { label: Label::IfExpression, span, children: branches.push(other) }
}

#[verifier::opaque]
pub open spec fn call_node(span: Span, callee: Tree, arguments: Seq<Tree>) -> Tree {
    Tree { label: Label::Call, span, children: seq![callee] + arguments }
}

#[verifier::opaque]
pub open spec fn function_node(
    name: Span,
    span: Span,
    parameters: Seq<Tree>,
    result: Option<Tree>,
    body: Tree,
) -> Tree {
    Tree {
        label: Label::Function { name, has_return_type: result is Some },
        span,
        children: parameters + optional(result) + seq![body],
    }
}

pub broadcast proof fn lemma_leaf_span(label: Label, span: Span)
    ensures
        (#[trigger] leaf(label, span)).span == span,
{
    reveal(leaf);
}

pub broadcast proof fn lemma_node1_span(label: Label, span: Span, child: Tree)
    ensures
        (#[trigger] node1(label, span, child)).span == span,
{
    reveal(node1);
}

pub broadcast proof fn lemma_node2_span(label: Label, span: Span, first: Tree, second: Tree)
    ensures
        (#[trigger] node2(label, span, first, second)).span == span,
{
    reveal(node2);
}

pub broadcast proof fn lemma_node_span(label: Label, span: Span, children: Seq<Tree>)
    ensures
        (#[trigger] node(label, span, children)).span == span,
{
    reveal(node);
}

pub broadcast proof fn lemma_block_node_span(span: Span, statements: Seq<Tree>, value: Option<Tree>)
    ensures
        (#[trigger] block_node(span, statements, value)).span == span,
{
    reveal(block_node);
}

pub broadcast proof fn lemma_return_node_span(span: Span, value: Option<Tree>)
    ensures
        (#[trigger] return_node(span, value)).span == span,
{
    reveal(return_node);
}

pub broadcast proof fn lemma_if_node_span(span: Span, branches: Seq<Tree>, other: Option<Tree>)
    ensures
        (#[trigger] if_node(span, branches, other)).span == span,
{
    reveal(if_node);
}

pub broadcast proof fn lemma_switch_node_span(span: Span, value: Tree, arms: Seq<Tree>, other: Option<Tree>)
    ensures
        (#[trigger] switch_node(span, value, arms, other)).span == span,
{
    reveal(switch_node);
}

pub broadcast proof fn lemma_if_expression_node_span(span: Span, branches: Seq<Tree>, other: Tree)
    ensures
        (#[trigger] if_expression_node(span, branches, other)).span == span,
{
    reveal(if_expression_node);
}

pub broadcast proof fn lemma_call_node_span(span: Span, callee: Tree, arguments: Seq<Tree>)
    ensures
        (#[trigger] call_node(span, callee, arguments)).span == span,
{
    reveal(call_node);
}

pub broadcast proof fn lemma_function_node_span(
    name: Span,
    span: Span,
    parameters: Seq<Tree>,
    result: Option<Tree>,
    body: Tree,
)
    ensures
        (#[trigger] function_node(name, span, parameters, result, body)).span == span,
{
    reveal(function_node);
}

pub broadcast group group_node_spans {
    lemma_leaf_span,
    lemma_node1_span,
    lemma_node2_span,
    lemma_node_span,
    lemma_block_node_span,
    lemma_return_node_span,
    lemma_if_node_span,
    lemma_switch_node_span,
    lemma_if_expression_node_span,
    lemma_call_node_span,
    lemma_function_node_span,
}

pub open spec fn type_trees(types: Seq<Type>) -> Seq<Tree>
    decreases types,
{
    Seq::new(
        types.len(),
        |i: int|
            if 0 <= i < types.len() {
                types[i].tree()
            } else {
                arbitrary()
            },
    )
}

impl Type {
    pub open spec fn tree(&self) -> Tree
        decreases self,
    {
        match &self.kind {
            TypeKind::Unit => leaf(Label::UnitType, self.span),
            TypeKind::Primitive(primitive) => leaf(Label::PrimitiveType(*primitive), self.span),
            TypeKind::Named(name) => leaf(Label::NamedType(name.span), self.span),
            TypeKind::Tagged { tag, payload } => node1(Label::TaggedType(tag.span), self.span, payload.tree()),
            TypeKind::List(element) => node1(Label::ListType, self.span, element.tree()),
            TypeKind::Mapping { key, value } => node2(Label::MapType, self.span, key.tree(), value.tree()),
            TypeKind::Parenthesized(inner) => node1(Label::ParenthesizedType, self.span, inner.tree()),
            TypeKind::Union(alternatives) => node(Label::UnionType, self.span, type_trees(alternatives@)),
        }
    }
}

impl TypeMember {
    pub open spec fn tree(&self) -> Tree {
        match &self.kind {
            TypeMemberKind::Named { name, referenced, ty } => node1(
                Label::NamedMember { name: name.span, referenced: *referenced },
                self.span,
                ty.tree(),
            ),
            TypeMemberKind::Unnamed(ty) => node1(Label::UnnamedMember, self.span, ty.tree()),
        }
    }
}

impl TypeDeclaration {
    pub open spec fn tree(&self) -> Tree {
        node(
            Label::TypeDeclaration { name: self.name.span },
            self.span,
            self.members@.map_values(|member: TypeMember| member.tree()),
        )
    }
}

impl Parameter {
    pub open spec fn tree(&self) -> Tree {
        node1(Label::Parameter { mutable: self.mutable, name: self.name.span }, self.span, self.ty.tree())
    }
}

impl FunctionDeclaration {
    pub open spec fn tree(&self) -> Tree {
        function_node(
            self.name.span,
            self.span,
            self.parameters@.map_values(|parameter: Parameter| parameter.tree()),
            match self.return_type {
                Some(ty) => Some(ty.tree()),
                None => None,
            },
            self.body.tree(),
        )
    }
}

impl Declaration {
    pub open spec fn tree(&self) -> Tree {
        match self {
            Declaration::Type(declaration) => declaration.tree(),
            Declaration::Function(declaration) => declaration.tree(),
        }
    }
}

impl Program {
    pub open spec fn tree(&self) -> Tree {
        node(
            Label::Program,
            self.span,
            self.declarations@.map_values(|declaration: Declaration| declaration.tree()),
        )
    }
}

pub open spec fn statement_trees(statements: Seq<Statement>) -> Seq<Tree>
    decreases statements,
{
    Seq::new(
        statements.len(),
        |i: int|
            if 0 <= i < statements.len() {
                statements[i].tree()
            } else {
                arbitrary()
            },
    )
}

pub open spec fn expression_trees(expressions: Seq<Expression>) -> Seq<Tree>
    decreases expressions,
{
    Seq::new(
        expressions.len(),
        |i: int|
            if 0 <= i < expressions.len() {
                expressions[i].tree()
            } else {
                arbitrary()
            },
    )
}

pub open spec fn entry_trees(entries: Seq<MapEntry>) -> Seq<Tree>
    decreases entries,
{
    Seq::new(
        entries.len(),
        |i: int|
            if 0 <= i < entries.len() {
                entries[i].tree()
            } else {
                arbitrary()
            },
    )
}

pub open spec fn argument_trees(arguments: Seq<Argument>) -> Seq<Tree>
    decreases arguments,
{
    Seq::new(
        arguments.len(),
        |i: int|
            if 0 <= i < arguments.len() {
                arguments[i].tree()
            } else {
                arbitrary()
            },
    )
}

pub open spec fn expression_branch_trees(branches: Seq<ConditionalExpressionBranch>) -> Seq<Tree>
    decreases branches,
{
    Seq::new(
        branches.len(),
        |i: int|
            if 0 <= i < branches.len() {
                branches[i].tree()
            } else {
                arbitrary()
            },
    )
}

pub open spec fn statement_branch_trees(branches: Seq<ConditionalStatementBranch>) -> Seq<Tree>
    decreases branches,
{
    Seq::new(
        branches.len(),
        |i: int|
            if 0 <= i < branches.len() {
                branches[i].tree()
            } else {
                arbitrary()
            },
    )
}

pub open spec fn arm_trees(arms: Seq<SwitchArm>) -> Seq<Tree>
    decreases arms,
{
    Seq::new(
        arms.len(),
        |i: int|
            if 0 <= i < arms.len() {
                arms[i].tree()
            } else {
                arbitrary()
            },
    )
}

pub open spec fn suffix_trees(suffixes: Seq<AssignmentTargetSuffix>) -> Seq<Tree>
    decreases suffixes,
{
    Seq::new(
        suffixes.len(),
        |i: int|
            if 0 <= i < suffixes.len() {
                suffixes[i].tree()
            } else {
                arbitrary()
            },
    )
}

impl Block {
    pub open spec fn tree(&self) -> Tree
        decreases self,
    {
        block_node(
            self.span,
            statement_trees(self.statements@),
            match &self.value {
                Some(value) => Some(value.tree()),
                None => None,
            },
        )
    }
}

impl StatementBody {
    pub open spec fn tree(&self) -> Tree
        decreases self,
    {
        match &self.kind {
            StatementBodyKind::Block(block) => node1(Label::BlockBody, self.span, block.tree()),
            StatementBodyKind::Statement(statement) => node1(Label::StatementBody, self.span, statement.tree()),
        }
    }
}

impl ExpressionBody {
    pub open spec fn tree(&self) -> Tree
        decreases self,
    {
        match &self.kind {
            ExpressionBodyKind::Block(block) => node1(Label::BlockBody, self.span, block.tree()),
            ExpressionBodyKind::Expression(expression) => node1(Label::ExpressionBody, self.span, expression.tree()),
        }
    }
}

impl ConditionalStatementBranch {
    pub open spec fn tree(&self) -> Tree
        decreases self,
    {
        node2(Label::Branch, self.span, self.condition.tree(), self.body.tree())
    }
}

impl ConditionalExpressionBranch {
    pub open spec fn tree(&self) -> Tree
        decreases self,
    {
        node2(Label::Branch, self.span, self.condition.tree(), self.body.tree())
    }
}

impl SwitchArm {
    pub open spec fn tree(&self) -> Tree
        decreases self,
    {
        node2(Label::Arm, self.span, self.label.tree(), self.body.tree())
    }
}

impl MapEntry {
    pub open spec fn tree(&self) -> Tree
        decreases self,
    {
        node2(Label::Entry, self.span, self.key.tree(), self.value.tree())
    }
}

impl Argument {
    pub open spec fn tree(&self) -> Tree
        decreases self,
    {
        match &self.kind {
            ArgumentKind::Positional(value) => node1(Label::Positional, self.span, value.tree()),
            ArgumentKind::Named { name, value } => node1(Label::NamedArgument(name.span), self.span, value.tree()),
        }
    }
}

impl AssignmentTargetSuffix {
    pub open spec fn tree(&self) -> Tree
        decreases self,
    {
        match &self.kind {
            AssignmentTargetSuffixKind::Member(member) => leaf(Label::MemberSuffix(*member), self.span),
            AssignmentTargetSuffixKind::Index(index) => node1(Label::IndexSuffix, self.span, index.tree()),
        }
    }
}

impl AssignmentTarget {
    pub open spec fn tree(&self) -> Tree
        decreases self,
    {
        node(Label::Target { root: self.root.span }, self.span, suffix_trees(self.suffixes@))
    }
}

impl Statement {
    pub open spec fn tree(&self) -> Tree
        decreases self,
    {
        match &self.kind {
            StatementKind::Local { mutable, name, initializer } => node1(
                Label::Local { mutable: *mutable, name: name.span },
                self.span,
                initializer.tree(),
            ),
            StatementKind::Assignment { target, operator, operator_span, value } => node2(
                Label::Assignment { operator: *operator, operator_span: *operator_span },
                self.span,
                target.tree(),
                value.tree(),
            ),
            StatementKind::Expression(expression) => node1(Label::ExpressionStatement, self.span, expression.tree()),
            StatementKind::Return(value) => return_node(
                self.span,
                match value {
                    Some(value) => Some(value.tree()),
                    None => None,
                },
            ),
            StatementKind::Break => leaf(Label::Break, self.span),
            StatementKind::Continue => leaf(Label::Continue, self.span),
            StatementKind::If { branches, else_body } => if_node(
                self.span,
                statement_branch_trees(branches@),
                match else_body {
                    Some(body) => Some(body.tree()),
                    None => None,
                },
            ),
            StatementKind::While { condition, body } => node2(Label::While, self.span, condition.tree(), body.tree()),
            StatementKind::For { binding, iterable, body } => node2(
                Label::For { binding: binding.span },
                self.span,
                iterable.tree(),
                body.tree(),
            ),
            StatementKind::Switch { value, arms, else_body } => switch_node(
                self.span,
                value.tree(),
                arm_trees(arms@),
                match else_body {
                    Some(body) => Some(body.tree()),
                    None => None,
                },
            ),
            StatementKind::Block(block) => node1(Label::BlockStatement, self.span, block.tree()),
        }
    }
}

impl Expression {
    pub open spec fn tree(&self) -> Tree
        decreases self,
    {
        match &self.kind {
            ExpressionKind::Unit => leaf(Label::Unit, self.span),
            ExpressionKind::Identifier(name) => leaf(Label::Identifier(name.span), self.span),
            ExpressionKind::Integer => leaf(Label::Integer, self.span),
            ExpressionKind::Float => leaf(Label::Float, self.span),
            ExpressionKind::String(bytes) => leaf(Label::Text(bytes@), self.span),
            ExpressionKind::Character(value) => leaf(Label::Character(*value), self.span),
            ExpressionKind::Boolean(value) => leaf(Label::Boolean(*value), self.span),
            ExpressionKind::Parenthesized(inner) => node1(Label::Parenthesized, self.span, inner.tree()),
            ExpressionKind::Conversion { destination, operand } => node1(
                Label::Conversion(*destination),
                self.span,
                operand.tree(),
            ),
            ExpressionKind::List(elements) => node(Label::List, self.span, expression_trees(elements@)),
            ExpressionKind::TypedEmptyList(ty) => node1(Label::TypedEmptyList, self.span, ty.tree()),
            ExpressionKind::Mapping(entries) => node(Label::MapLiteral, self.span, entry_trees(entries@)),
            ExpressionKind::TypedEmptyMap(ty) => node1(Label::TypedEmptyMap, self.span, ty.tree()),
            ExpressionKind::Block(block) => node1(Label::BlockExpression, self.span, block.tree()),
            ExpressionKind::If { branches, else_branch } => if_expression_node(
                self.span,
                expression_branch_trees(branches@),
                else_branch.tree(),
            ),
            ExpressionKind::Unary { operator, operator_span, operand } => node1(
                Label::Unary { operator: *operator, operator_span: *operator_span },
                self.span,
                operand.tree(),
            ),
            ExpressionKind::Binary { left, operator, operator_span, right } => node2(
                Label::Binary { operator: *operator, operator_span: *operator_span },
                self.span,
                left.tree(),
                right.tree(),
            ),
            ExpressionKind::Is { value, operator_span, ty } => node2(
                Label::Is { operator_span: *operator_span },
                self.span,
                value.tree(),
                ty.tree(),
            ),
            ExpressionKind::Call { callee, arguments } => call_node(
                self.span,
                callee.tree(),
                argument_trees(arguments@),
            ),
            ExpressionKind::Index { value, index } => node2(Label::Index, self.span, value.tree(), index.tree()),
            ExpressionKind::Member { value, member } => node1(Label::Member(*member), self.span, value.tree()),
            ExpressionKind::Try { value, operator_span } => node1(
                Label::Try { operator_span: *operator_span },
                self.span,
                value.tree(),
            ),
        }
    }
}

pub broadcast proof fn lemma_type_trees(types: Seq<Type>, last: Type)
    ensures
        #[trigger] type_trees(types.push(last)) == type_trees(types).push(last.tree()),
{
    assert(type_trees(types.push(last)) =~= type_trees(types).push(last.tree()));
}

pub broadcast proof fn lemma_statement_trees(statements: Seq<Statement>, last: Statement)
    ensures
        #[trigger] statement_trees(statements.push(last)) == statement_trees(statements).push(last.tree()),
{
    assert(statement_trees(statements.push(last)) =~= statement_trees(statements).push(last.tree()));
}

pub broadcast proof fn lemma_expression_trees(expressions: Seq<Expression>, last: Expression)
    ensures
        #[trigger] expression_trees(expressions.push(last)) == expression_trees(expressions).push(last.tree()),
{
    assert(expression_trees(expressions.push(last)) =~= expression_trees(expressions).push(last.tree()));
}

pub broadcast proof fn lemma_entry_trees(entries: Seq<MapEntry>, last: MapEntry)
    ensures
        #[trigger] entry_trees(entries.push(last)) == entry_trees(entries).push(last.tree()),
{
    assert(entry_trees(entries.push(last)) =~= entry_trees(entries).push(last.tree()));
}

pub broadcast proof fn lemma_argument_trees(arguments: Seq<Argument>, last: Argument)
    ensures
        #[trigger] argument_trees(arguments.push(last)) == argument_trees(arguments).push(last.tree()),
{
    assert(argument_trees(arguments.push(last)) =~= argument_trees(arguments).push(last.tree()));
}

pub broadcast proof fn lemma_expression_branch_trees(
    branches: Seq<ConditionalExpressionBranch>,
    last: ConditionalExpressionBranch,
)
    ensures
        #[trigger] expression_branch_trees(branches.push(last)) == expression_branch_trees(branches).push(last.tree()),
{
    assert(expression_branch_trees(branches.push(last)) =~= expression_branch_trees(branches).push(last.tree()));
}

pub broadcast proof fn lemma_statement_branch_trees(
    branches: Seq<ConditionalStatementBranch>,
    last: ConditionalStatementBranch,
)
    ensures
        #[trigger] statement_branch_trees(branches.push(last)) == statement_branch_trees(branches).push(last.tree()),
{
    assert(statement_branch_trees(branches.push(last)) =~= statement_branch_trees(branches).push(last.tree()));
}

pub broadcast proof fn lemma_arm_trees(arms: Seq<SwitchArm>, last: SwitchArm)
    ensures
        #[trigger] arm_trees(arms.push(last)) == arm_trees(arms).push(last.tree()),
{
    assert(arm_trees(arms.push(last)) =~= arm_trees(arms).push(last.tree()));
}

pub broadcast proof fn lemma_suffix_trees(suffixes: Seq<AssignmentTargetSuffix>, last: AssignmentTargetSuffix)
    ensures
        #[trigger] suffix_trees(suffixes.push(last)) == suffix_trees(suffixes).push(last.tree()),
{
    assert(suffix_trees(suffixes.push(last)) =~= suffix_trees(suffixes).push(last.tree()));
}

pub broadcast group group_trees {
    lemma_type_trees,
    lemma_statement_trees,
    lemma_expression_trees,
    lemma_entry_trees,
    lemma_argument_trees,
    lemma_expression_branch_trees,
    lemma_statement_branch_trees,
    lemma_arm_trees,
    lemma_suffix_trees,
}

} // verus!
