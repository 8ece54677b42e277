//! The facts that name and type analysis states of a program.
//!
//! A fact about a statement, an expression, a type or an identifier names its node by the node's span:
//! no two nodes of one kind in a program share a span, and spans in trees with different numbers
//! differ. Where a node may carry several facts of one kind, the latest stands.

use crate::ast::{FunctionDeclaration, Parameter, PrimitiveType, Program, TypeDeclaration};
use crate::diagnostic::Diagnostics;
use crate::source::{SourceFile, Span};
use crate::text::same_text;
use vstd::prelude::*;

verus! {

#[derive(Clone, Copy, Debug, Eq, Hash, PartialEq, Structural)]
pub struct TypeId(pub usize);

#[derive(Clone, Copy, Debug, Eq, Hash, PartialEq, Structural)]
pub struct BindingId(pub usize);

#[derive(Clone, Copy, Debug, Eq, Hash, PartialEq, Structural)]
pub struct FunctionId(pub usize);

#[derive(Clone, Copy, Debug, Eq, Hash, PartialEq, Structural)]
pub struct TypeDeclarationId(pub usize);

#[derive(Clone, Copy, Debug, Eq, Hash, PartialEq, Structural)]
pub struct DeferredId(pub usize);

#[derive(Clone, Copy, Debug, Eq, PartialEq, Structural)]
pub enum DeclarationId {
    Type(TypeDeclarationId),
    Function(FunctionId),
}

/// A declaration, named by its span.
#[derive(Clone, Copy, Debug, Eq, PartialEq, Structural)]
pub enum DeclarationNode {
    Type(Span),
    Function(Span),
}

/// What introduces a binding: a parameter, a local declaration or a `for` loop.
#[derive(Clone, Copy, Debug, Eq, PartialEq, Structural)]
pub enum BindingNode {
    Parameter(Span),
    Local(Span),
    Loop(Span),
}

/// A node that a deferred decision is about.
#[derive(Clone, Copy, Debug, Eq, PartialEq, Structural)]
pub enum AstNode {
    Declaration(DeclarationNode),
    Binding(BindingNode),
    Type(Span),
    Statement(Span),
    Expression(Span),
    AssignmentTarget(Span),
}

/// What is known of a type: nothing can be of it, the program is wrong, it is settled, or it is open.
#[derive(Clone, Copy, Debug, Eq, PartialEq, Structural)]
pub enum TypeState {
    Never,
    Error,
    Resolved(TypeId),
    Deferred(DeferredId),
}

#[derive(Clone, Copy, Debug, Eq, PartialEq, Structural)]
pub enum MemberStorage {
    Inline,
    Referenced,
}

#[derive(Clone, Copy, Debug, Eq, PartialEq, Structural)]
pub enum UnionStyle {
    Tagged,
    Untagged,
}

#[derive(Debug, Eq, PartialEq)]
pub enum UnionAlternative {
    Untagged(TypeId),
    Tagged { tag: String, payload: TypeId },
    Error(TypeId),
}

/// The contents of a union alternative.
pub enum AlternativeView {
    Untagged(TypeId),
    Tagged { tag: Seq<char>, payload: TypeId },
    Error(TypeId),
}

impl UnionAlternative {
    pub open spec fn view(&self) -> AlternativeView {
        match self {
            UnionAlternative::Untagged(payload) => AlternativeView::Untagged(*payload),
            UnionAlternative::Tagged { tag, payload } => AlternativeView::Tagged { tag: tag@, payload: *payload },
            UnionAlternative::Error(payload) => AlternativeView::Error(*payload),
        }
    }

    /// Whether two alternatives are the same.
    pub fn same(&self, other: &UnionAlternative) -> (result: bool)
        ensures
            result == (self@ == other@),
    {
        match (self, other) {
            (UnionAlternative::Untagged(left), UnionAlternative::Untagged(right)) => *left == *right,
            (
                UnionAlternative::Tagged { tag: left, payload: left_payload },
                UnionAlternative::Tagged { tag: right, payload: right_payload },
            ) => same_text(left.as_str(), right.as_str()) && *left_payload == *right_payload,
            (UnionAlternative::Error(left), UnionAlternative::Error(right)) => *left == *right,
            _ => false,
        }
    }

    pub fn duplicate(&self) -> (result: UnionAlternative)
        ensures
            result@ == self@,
    {
        match self {
            UnionAlternative::Untagged(payload) => UnionAlternative::Untagged(*payload),
            UnionAlternative::Tagged { tag, payload } => UnionAlternative::Tagged {
                tag: tag.clone(),
                payload: *payload,
            },
            UnionAlternative::Error(payload) => UnionAlternative::Error(*payload),
        }
    }
}

/// The type that an alternative carries.
pub open spec fn payload_of(alternative: AlternativeView) -> TypeId {
    match alternative {
        AlternativeView::Untagged(payload) => payload,
        AlternativeView::Tagged { payload, .. } => payload,
        AlternativeView::Error(payload) => payload,
    }
}

pub fn alternative_payload(alternative: &UnionAlternative) -> (result: TypeId)
    ensures
        result == payload_of(alternative@),
{
    match alternative {
        UnionAlternative::Untagged(payload) => *payload,
        UnionAlternative::Tagged { payload, .. } => *payload,
        UnionAlternative::Error(payload) => *payload,
    }
}

/// The contents of a list of alternatives.
pub open spec fn alternative_views(alternatives: Seq<UnionAlternative>) -> Seq<AlternativeView> {
    Seq::new(alternatives.len(), |i: int| alternatives[i]@)
}

/// Whether an alternative is in a list.
pub open spec fn lists(alternatives: Seq<UnionAlternative>, wanted: AlternativeView) -> bool {
    exists|i: int| 0 <= i < alternatives.len() && #[trigger] alternatives[i]@ == wanted
}

pub fn contains_alternative(alternatives: &Vec<UnionAlternative>, wanted: &UnionAlternative) -> (result: bool)
    ensures
        result == lists(alternatives@, wanted@),
{
    let mut index: usize = 0;
    while index < alternatives.len()
        invariant
            index <= alternatives@.len(),
            forall|i: int| 0 <= i < index ==> #[trigger] alternatives@[i]@ != wanted@,
        decreases alternatives@.len() - index,
    {
        if alternatives[index].same(wanted) {
            return true;
        }
        index += 1;
    }
    false
}

#[derive(Debug, Eq, PartialEq)]
pub enum ResolvedType {
    Unit,
    Primitive(PrimitiveType),
    List(TypeId),
    Mapping { key: TypeId, value: TypeId },
    Nominal(TypeDeclarationId),
    Union(Vec<UnionAlternative>),
}

/// The canonical types of a program, in the order of their identities.
///
/// The unit type comes first; the primitive types follow it.
#[derive(Debug, Eq, PartialEq)]
pub struct Types {
    pub entries: Vec<ResolvedType>,
}

/// The identity of the unit type.
pub open spec fn unit_type() -> TypeId {
    TypeId(0)
}

/// The identity of a primitive type.
pub open spec fn primitive_type(primitive: PrimitiveType) -> TypeId {
    match primitive {
        PrimitiveType::Int => TypeId(1),
        PrimitiveType::Float => TypeId(2),
        PrimitiveType::Str => TypeId(3),
        PrimitiveType::Bool => TypeId(4),
        PrimitiveType::Char => TypeId(5),
    }
}

impl Types {
    /// Whether a type identity is in range.
    pub open spec fn has(&self, ty: TypeId) -> bool {
        ty.0 < self.entries@.len()
    }

    /// A table that holds the unit type and the primitive types.
    pub fn new() -> (result: Self)
        ensures
            result.entries@ == seq![
                ResolvedType::Unit,
                ResolvedType::Primitive(PrimitiveType::Int),
                ResolvedType::Primitive(PrimitiveType::Float),
                ResolvedType::Primitive(PrimitiveType::Str),
                ResolvedType::Primitive(PrimitiveType::Bool),
                ResolvedType::Primitive(PrimitiveType::Char),
            ],
    {
        let mut entries: Vec<ResolvedType> = Vec::new();
        entries.push(ResolvedType::Unit);
        entries.push(ResolvedType::Primitive(PrimitiveType::Int));
        entries.push(ResolvedType::Primitive(PrimitiveType::Float));
        entries.push(ResolvedType::Primitive(PrimitiveType::Str));
        entries.push(ResolvedType::Primitive(PrimitiveType::Bool));
        entries.push(ResolvedType::Primitive(PrimitiveType::Char));
        Self { entries }
    }

    pub fn contains(&self, ty: TypeId) -> (result: bool)
        ensures
            result == self.has(ty),
    {
        ty.0 < self.entries.len()
    }

    pub fn get(&self, ty: TypeId) -> (result: &ResolvedType)
        requires
            self.has(ty),
        ensures
            *result == self.entries@[ty.0 as int],
    {
        &self.entries[ty.0]
    }

    pub fn unit(&self) -> (result: TypeId)
        ensures
            result == unit_type(),
    {
        TypeId(0)
    }

    pub fn primitive(&self, primitive: PrimitiveType) -> (result: TypeId)
        ensures
            result == primitive_type(primitive),
    {
        match primitive {
            PrimitiveType::Int => TypeId(1),
            PrimitiveType::Float => TypeId(2),
            PrimitiveType::Str => TypeId(3),
            PrimitiveType::Bool => TypeId(4),
            PrimitiveType::Char => TypeId(5),
        }
    }
}

#[derive(Clone, Copy, Debug, Eq, PartialEq, Structural)]
pub struct StructMember {
    pub node: Span,
    pub name: Span,
    pub storage: MemberStorage,
    pub ty: TypeState,
}

#[derive(Clone, Copy, Debug, Eq, PartialEq, Structural)]
pub struct TupleMember {
    pub node: Span,
    pub position: usize,
    pub ty: TypeState,
}

#[derive(Debug, Eq, PartialEq)]
pub enum TypeDefinitionKind {
    Struct(Vec<StructMember>),
    Tuple(Vec<TupleMember>),
    Union { style: UnionStyle, alternatives: Vec<UnionAlternative> },
    Invalid,
}

#[derive(Debug, Eq, PartialEq)]
pub struct TypeDefinition<'a> {
    pub id: TypeDeclarationId,
    pub node: &'a TypeDeclaration,
    pub kind: TypeDefinitionKind,
}

#[derive(Debug, Eq, PartialEq)]
pub struct ParameterSignature<'a> {
    pub binding: BindingId,
    pub node: &'a Parameter,
    pub ty: TypeState,
}

#[derive(Debug, Eq, PartialEq)]
pub struct FunctionSignature<'a> {
    pub id: FunctionId,
    pub node: &'a FunctionDeclaration,
    pub parameters: Vec<ParameterSignature<'a>>,
    pub result: TypeState,
}

#[derive(Clone, Copy, Debug, Eq, PartialEq, Structural)]
pub struct DeclarationRecord {
    pub id: DeclarationId,
    pub node: DeclarationNode,
}

#[derive(Debug, Eq, PartialEq)]
pub struct TypeName {
    pub name: String,
    pub id: TypeDeclarationId,
}

#[derive(Debug, Eq, PartialEq)]
pub struct FunctionName {
    pub name: String,
    pub id: FunctionId,
}

#[derive(Clone, Copy, Debug, Eq, PartialEq, Structural)]
pub struct Binding {
    pub id: BindingId,
    pub node: BindingNode,
    pub mutable: bool,
}

#[derive(Clone, Copy, Debug, Eq, PartialEq, Structural)]
pub struct BindingType {
    pub binding: BindingId,
    pub state: TypeState,
}

#[derive(Clone, Copy, Debug, Eq, PartialEq, Structural)]
pub struct DeferredRecord {
    pub id: DeferredId,
    pub node: AstNode,
    pub resolved: bool,
}

#[derive(Clone, Copy, Debug, Eq, PartialEq, Structural)]
pub struct TypeAnnotation {
    pub node: Span,
    pub state: TypeState,
}

#[derive(Clone, Copy, Debug, Eq, PartialEq, Structural)]
pub struct ExpressionAnnotation {
    pub node: Span,
    pub state: TypeState,
}

/// One step from an assigned binding to the place that an assignment replaces.
#[derive(Clone, Copy, Debug, Eq, PartialEq, Structural)]
pub enum AccessPathStep {
    StructMember {
        suffix: Span,
        declaration: TypeDeclarationId,
        member: Span,
        field: usize,
        storage: MemberStorage,
        state: TypeState,
    },
    TupleMember { suffix: Span, declaration: TypeDeclarationId, member: Span, position: usize, state: TypeState },
    ListIndex { suffix: Span, element: TypeId, state: TypeState },
    MapIndex { suffix: Span, key: TypeId, value: TypeId, state: TypeState },
}

#[derive(Debug, Eq, PartialEq)]
pub struct AssignmentAnnotation {
    pub node: Span,
    pub root: Option<BindingId>,
    pub steps: Vec<AccessPathStep>,
    pub state: TypeState,
}

/// What a literal denotes; a float is held by its bits.
#[derive(Debug, Eq, PartialEq)]
pub enum LiteralValue {
    Integer(u64),
    Float(u64),
    String(Vec<u8>),
    Character(u8),
    Boolean(bool),
}

#[derive(Debug, Eq, PartialEq)]
pub struct Literal {
    pub node: Span,
    pub value: LiteralValue,
}

#[derive(Clone, Copy, Debug, Eq, PartialEq, Structural)]
pub struct NumericConversion {
    pub node: Span,
    pub source: TypeId,
    pub destination: TypeId,
}

#[derive(Clone, Copy, Debug, Eq, PartialEq, Structural)]
pub enum ProjectionKind {
    List { element: TypeId },
    Mapping { key: TypeId, value: TypeId },
    String { result: TypeId },
    Struct { declaration: TypeDeclarationId, field: usize, storage: MemberStorage, result: TypeId },
    Tuple { declaration: TypeDeclarationId, position: usize, result: TypeId },
}

#[derive(Clone, Copy, Debug, Eq, PartialEq, Structural)]
pub struct ProjectionResolution {
    pub node: Span,
    pub kind: ProjectionKind,
}

#[derive(Clone, Copy, Debug, Eq, PartialEq, Structural)]
pub enum BuiltinMethod {
    ListAppend,
    ListRemoveIndex,
    ListLen,
    MapRemoveKey,
    MapLen,
    StrLen,
}

#[derive(Clone, Copy, Debug, Eq, PartialEq, Structural)]
pub enum IntrinsicId {
    Print,
    Println,
    Panic,
}

#[derive(Clone, Copy, Debug, Eq, PartialEq, Structural)]
pub enum CallableId {
    Function(FunctionId),
    Constructor(TypeDeclarationId),
    Intrinsic(IntrinsicId),
}

#[derive(Clone, Copy, Debug, Eq, PartialEq, Structural)]
pub enum CallTarget {
    Callable(CallableId),
    QualifiedConstructor(TypeDeclarationId),
    ErrorConstructor,
    Builtin(BuiltinMethod),
    Binding(BindingId),
    Expression,
    Unknown,
    Ambiguous { function: FunctionId, constructor: TypeDeclarationId },
    AmbiguousErrorConstructor { function: FunctionId },
}

#[derive(Clone, Copy, Debug, Eq, PartialEq, Structural)]
pub struct CallResolution {
    pub node: Span,
    pub callee: Span,
    pub target: CallTarget,
}

#[derive(Debug, Eq, PartialEq)]
pub enum ConstructorKind {
    Struct { declaration: TypeDeclarationId, argument_members: Vec<usize> },
    Tuple(TypeDeclarationId),
    Union { declaration: TypeDeclarationId, alternative: UnionAlternative },
    TaggedUnion { declaration: TypeDeclarationId, alternative: UnionAlternative },
    Error { union_type: TypeId, alternative: UnionAlternative },
}

#[derive(Debug, Eq, PartialEq)]
pub struct ConstructorResolution {
    pub node: Span,
    pub kind: ConstructorKind,
}

#[derive(Clone, Copy, Debug, Eq, PartialEq, Structural)]
pub enum BindingAccess {
    Read,
    Write,
    ReadWrite,
    Mutate,
    ReadMutate,
}

#[derive(Clone, Copy, Debug, Eq, PartialEq, Structural)]
pub enum NameResolution {
    Binding(BindingId),
    Callable(CallableId),
    ErrorConstructor,
    Unknown,
    AmbiguousCall { function: FunctionId, constructor: TypeDeclarationId },
    AmbiguousErrorConstructor { function: FunctionId },
}

#[derive(Clone, Copy, Debug, Eq, PartialEq, Structural)]
pub struct NameUse {
    pub node: Span,
    pub resolution: NameResolution,
    pub access: BindingAccess,
}

#[derive(Debug, Eq, PartialEq)]
pub struct UnionInjection {
    pub node: Span,
    pub union_type: TypeId,
    pub alternative: UnionAlternative,
}

/// Everything that name and type analysis states of one program.
#[derive(Debug)]
pub struct Analysis<'a> {
    pub source: &'a SourceFile,
    pub program: &'a Program,
    pub diagnostics: Diagnostics,
    pub declarations: Vec<DeclarationRecord>,
    pub type_definitions: Vec<TypeDefinition<'a>>,
    pub function_signatures: Vec<FunctionSignature<'a>>,
    pub type_names: Vec<TypeName>,
    pub function_names: Vec<FunctionName>,
    pub bindings: Vec<Binding>,
    pub binding_types: Vec<BindingType>,
    pub types: Types,
    pub deferred: Vec<DeferredRecord>,
    pub type_annotations: Vec<TypeAnnotation>,
    pub expression_annotations: Vec<ExpressionAnnotation>,
    pub assignment_targets: Vec<AssignmentAnnotation>,
    pub literals: Vec<Literal>,
    pub numeric_conversions: Vec<NumericConversion>,
    pub projections: Vec<ProjectionResolution>,
    pub calls: Vec<CallResolution>,
    pub constructors: Vec<ConstructorResolution>,
    pub name_uses: Vec<NameUse>,
    pub union_injection_subjects: Vec<UnionInjection>,
    pub union_injections: Vec<UnionInjection>,
}

/// A fact about one node.
pub trait Fact {
    /// The span of the node that the fact is about.
    spec fn about(&self) -> Span;

    fn subject(&self) -> (result: Span)
        ensures
            result == self.about(),
    ;
}

impl Fact for TypeAnnotation {
    open spec fn about(&self) -> Span {
        self.node
    }

    fn subject(&self) -> Span {
        self.node
    }
}

impl Fact for ExpressionAnnotation {
    open spec fn about(&self) -> Span {
        self.node
    }

    fn subject(&self) -> Span {
        self.node
    }
}

impl Fact for AssignmentAnnotation {
    open spec fn about(&self) -> Span {
        self.node
    }

    fn subject(&self) -> Span {
        self.node
    }
}

impl Fact for Literal {
    open spec fn about(&self) -> Span {
        self.node
    }

    fn subject(&self) -> Span {
        self.node
    }
}

impl Fact for NumericConversion {
    open spec fn about(&self) -> Span {
        self.node
    }

    fn subject(&self) -> Span {
        self.node
    }
}

impl Fact for ProjectionResolution {
    open spec fn about(&self) -> Span {
        self.node
    }

    fn subject(&self) -> Span {
        self.node
    }
}

impl Fact for CallResolution {
    open spec fn about(&self) -> Span {
        self.node
    }

    fn subject(&self) -> Span {
        self.node
    }
}

impl Fact for ConstructorResolution {
    open spec fn about(&self) -> Span {
        self.node
    }

    fn subject(&self) -> Span {
        self.node
    }
}

impl Fact for NameUse {
    open spec fn about(&self) -> Span {
        self.node
    }

    fn subject(&self) -> Span {
        self.node
    }
}

impl Fact for UnionInjection {
    open spec fn about(&self) -> Span {
        self.node
    }

    fn subject(&self) -> Span {
        self.node
    }
}

/// How many of the first `count` facts are about a node.
pub open spec fn facts_before<T: Fact>(facts: Seq<T>, node: Span, count: int) -> nat
    decreases count,
{
    if count <= 0 {
        0
    } else if facts[count - 1].about() == node {
        facts_before(facts, node, count - 1) + 1
    } else {
        facts_before(facts, node, count - 1)
    }
}

/// How many facts are about a node.
pub open spec fn facts_of<T: Fact>(facts: Seq<T>, node: Span) -> nat {
    facts_before(facts, node, facts.len() as int)
}

/// The index of the latest of the first `count` facts about a node.
pub open spec fn latest_before<T: Fact>(facts: Seq<T>, node: Span, count: int) -> Option<int>
    decreases count,
{
    if count <= 0 {
        None
    } else if facts[count - 1].about() == node {
        Some(count - 1)
    } else {
        latest_before(facts, node, count - 1)
    }
}

/// The index of the latest fact about a node.
pub open spec fn latest<T: Fact>(facts: Seq<T>, node: Span) -> Option<int> {
    latest_before(facts, node, facts.len() as int)
}

pub fn count_facts<T: Fact>(facts: &Vec<T>, node: Span) -> (result: usize)
    ensures
        result == facts_of(facts@, node),
{
    let mut count: usize = 0;
    let mut index: usize = 0;
    while index < facts.len()
        invariant
            index <= facts@.len(),
            count <= index,
            count == facts_before(facts@, node, index as int),
        decreases facts@.len() - index,
    {
        if facts[index].subject() == node {
            count += 1;
        }
        index += 1;
    }
    count
}

pub fn latest_fact<T: Fact>(facts: &Vec<T>, node: Span) -> (result: Option<usize>)
    ensures
        match result {
            Some(index) => latest(facts@, node) == Some(index as int) && index < facts@.len()
                && facts@[index as int].about() == node,
            None => latest(facts@, node) is None,
        },
{
    let mut index: usize = facts.len();
    while index > 0
        invariant
            index <= facts@.len(),
            latest_before(facts@, node, index as int) == latest(facts@, node),
        decreases index,
    {
        if facts[index - 1].subject() == node {
            return Some(index - 1);
        }
        index -= 1;
    }
    None
}

/// What is known of the type of an expression.
pub open spec fn state_of(analysis: &Analysis, expression: Span) -> Option<TypeState> {
    match latest(analysis.expression_annotations@, expression) {
        Some(i) => Some(analysis.expression_annotations@[i].state),
        None => None,
    }
}

/// What a call calls.
pub open spec fn target_of(analysis: &Analysis, call: Span) -> Option<CallTarget> {
    match latest(analysis.calls@, call) {
        Some(i) => Some(analysis.calls@[i].target),
        None => None,
    }
}

/// How an identifier is used.
pub open spec fn use_of(analysis: &Analysis, identifier: Span) -> Option<NameUse> {
    match latest(analysis.name_uses@, identifier) {
        Some(i) => Some(analysis.name_uses@[i]),
        None => None,
    }
}

/// The union type and the alternative that the value of an expression is put into.
pub open spec fn injection_of(analysis: &Analysis, expression: Span) -> Option<(TypeId, AlternativeView)> {
    match latest(analysis.union_injections@, expression) {
        Some(i) => Some((analysis.union_injections@[i].union_type, analysis.union_injections@[i].alternative@)),
        None => None,
    }
}

/// The function that a name stands for: the first entry of that name.
pub open spec fn function_named(names: Seq<FunctionName>, name: Seq<char>, from: int) -> Option<FunctionId>
    decreases names.len() - from,
{
    if from < 0 || from >= names.len() {
        None
    } else if names[from].name@ == name {
        Some(names[from].id)
    } else {
        function_named(names, name, from + 1)
    }
}

impl<'a> Analysis<'a> {
    pub fn expression_state(&self, expression: Span) -> (result: Option<TypeState>)
        ensures
            result == state_of(self, expression),
    {
        match latest_fact(&self.expression_annotations, expression) {
            Some(index) => Some(self.expression_annotations[index].state),
            None => None,
        }
    }

    pub fn expression_annotation(&self, expression: Span) -> (result: Option<&ExpressionAnnotation>)
        ensures
            match latest(self.expression_annotations@, expression) {
                Some(i) => result == Some(&self.expression_annotations@[i]),
                None => result is None,
            },
    {
        match latest_fact(&self.expression_annotations, expression) {
            Some(index) => Some(&self.expression_annotations[index]),
            None => None,
        }
    }

    pub fn call_target(&self, call: Span) -> (result: Option<CallTarget>)
        ensures
            result == target_of(self, call),
    {
        match latest_fact(&self.calls, call) {
            Some(index) => Some(self.calls[index].target),
            None => None,
        }
    }

    pub fn name_use(&self, identifier: Span) -> (result: Option<NameUse>)
        ensures
            result == use_of(self, identifier),
    {
        match latest_fact(&self.name_uses, identifier) {
            Some(index) => Some(self.name_uses[index]),
            None => None,
        }
    }

    pub fn union_injection(&self, expression: Span) -> (result: Option<&UnionInjection>)
        ensures
            match result {
                Some(injection) => injection_of(self, expression) == Some(
                    (injection.union_type, injection.alternative@),
                ),
                None => injection_of(self, expression) is None,
            },
    {
        match latest_fact(&self.union_injections, expression) {
            Some(index) => Some(&self.union_injections[index]),
            None => None,
        }
    }

    pub fn function_by_name(&self, name: &str) -> (result: Option<FunctionId>)
        ensures
            result == function_named(self.function_names@, name@, 0),
    {
        let mut index: usize = 0;
        while index < self.function_names.len()
            invariant
                index <= self.function_names@.len(),
                function_named(self.function_names@, name@, index as int) == function_named(
                    self.function_names@,
                    name@,
                    0,
                ),
            decreases self.function_names@.len() - index,
        {
            if same_text(self.function_names[index].name.as_str(), name) {
                return Some(self.function_names[index].id);
            }
            index += 1;
        }
        None
    }
}

} // verus!
