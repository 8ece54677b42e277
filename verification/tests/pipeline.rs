//! Programs from their text to the intermediate representation.
//!
//! The facts of name and type analysis are gathered here by a small analyzer that knows just what these programs
//! use; everything behind it is the library.

use sao2::analysis::{
    AccessPathStep, Analysis, AssignmentAnnotation, AstNode, Binding, BindingAccess, BindingId, BindingNode, BindingType,
    BuiltinMethod, CallResolution, CallTarget, CallableId, ConstructorKind, ConstructorResolution, DeclarationId,
    DeclarationNode, DeclarationRecord, DeferredId, DeferredRecord, ExpressionAnnotation, FunctionId, FunctionName,
    FunctionSignature, IntrinsicId, Literal, LiteralValue, MemberStorage, NameResolution, NameUse, NumericConversion,
    ParameterSignature, ProjectionKind, ProjectionResolution, ResolvedType, StructMember, TupleMember, TypeAnnotation,
    TypeDeclarationId, TypeDefinition, TypeDefinitionKind, TypeId, TypeName, TypeState, Types, UnionAlternative, UnionStyle,
};
use sao2::ast::{
    Argument, ArgumentKind, AssignmentOperator, AssignmentTarget, AssignmentTargetSuffixKind, BinaryOperator, Block,
    Declaration, Expression, ExpressionBody, ExpressionBodyKind, ExpressionKind, Member, PrimitiveType, Program, Statement,
    StatementBody, StatementBodyKind, StatementKind, Type, TypeKind, TypeMemberKind,
};
use sao2::diagnostic::{Diagnostics, MAX_SOURCE_WARNINGS};
use sao2::ir;
use sao2::lowering::{lower, LoweringError};
use sao2::parser;
use sao2::semantic::handoff::validate_handoff;
use sao2::semantic::{
    self, DeferredFlowKind, EntryPoint, FlowRecord, FlowSubject, MutabilityOperation, SemanticResult, TryAction,
};
use sao2::source::{SourceFile, Span};

struct Analyzer<'a> {
    facts: Analysis<'a>,
    scopes: Vec<Vec<(String, BindingId)>>,
    narrowed: Vec<(BindingId, TypeId)>,
    result: TypeState,
}

fn rank(alternative: &UnionAlternative) -> (u8, String, usize) {
    match alternative {
        UnionAlternative::Untagged(ty) => (0, String::new(), ty.0),
        UnionAlternative::Tagged { tag, payload } => (1, tag.clone(), payload.0),
        UnionAlternative::Error(ty) => (2, String::new(), ty.0),
    }
}

fn carried(alternative: &UnionAlternative) -> TypeId {
    match alternative {
        UnionAlternative::Untagged(ty) => *ty,
        UnionAlternative::Tagged { payload, .. } => *payload,
        UnionAlternative::Error(ty) => *ty,
    }
}

fn bare(e: &Expression) -> &Expression {
    match &e.kind {
        ExpressionKind::Parenthesized(inner) => bare(inner),
        _ => e,
    }
}

impl<'a> Analyzer<'a> {
    fn text(&self, span: Span) -> String {
        self.facts.source.text[span.start..span.end].to_owned()
    }

    fn intern(&mut self, ty: ResolvedType) -> TypeId {
        for (index, known) in self.facts.types.entries.iter().enumerate() {
            if *known == ty {
                return TypeId(index);
            }
        }
        self.facts.types.entries.push(ty);
        TypeId(self.facts.types.entries.len() - 1)
    }

    fn declared(&self, name: &str) -> Option<TypeDeclarationId> {
        self.facts.type_names.iter().find(|entry| entry.name == name).map(|entry| entry.id)
    }

    fn resolve(&mut self, ty: &'a Type) -> TypeId {
        let resolved = match &ty.kind {
            TypeKind::Unit => self.facts.types.unit(),
            TypeKind::Primitive(primitive) => self.facts.types.primitive(*primitive),
            TypeKind::Named(name) => {
                let text = self.text(name.span);
                let declaration = self.declared(&text).expect("type is declared");
                self.intern(ResolvedType::Nominal(declaration))
            },
            TypeKind::Tagged { payload, .. } => self.resolve(payload),
            TypeKind::List(element) => {
                let element = self.resolve(element);
                self.intern(ResolvedType::List(element))
            },
            TypeKind::Mapping { key, value } => {
                let key = self.resolve(key);
                let value = self.resolve(value);
                self.intern(ResolvedType::Mapping { key, value })
            },
            TypeKind::Parenthesized(inner) => self.resolve(inner),
            TypeKind::Union(alternatives) => {
                let resolved = self.alternatives(alternatives);
                self.intern(ResolvedType::Union(resolved))
            },
        };
        self.facts.type_annotations.push(TypeAnnotation { node: ty.span, state: TypeState::Resolved(resolved) });
        resolved
    }

    fn alternatives(&mut self, types: &'a Vec<Type>) -> Vec<UnionAlternative> {
        let mut resolved = Vec::new();
        for ty in types {
            let payload = self.resolve(ty);
            resolved.push(match &ty.kind {
                TypeKind::Tagged { tag, .. } => {
                    let tag = self.text(tag.span);
                    if tag == "Error" {
                        UnionAlternative::Error(payload)
                    } else {
                        UnionAlternative::Tagged { tag, payload }
                    }
                },
                _ => UnionAlternative::Untagged(payload),
            });
        }
        resolved.sort_by_key(rank);
        resolved
    }

    fn union_of(&self, ty: TypeId) -> Option<Vec<UnionAlternative>> {
        let alternatives = match &self.facts.types.entries[ty.0] {
            ResolvedType::Union(alternatives) => alternatives,
            ResolvedType::Nominal(declaration) => match &self.facts.type_definitions[declaration.0].kind {
                TypeDefinitionKind::Union { alternatives, .. } => alternatives,
                _ => return None,
            },
            _ => return None,
        };
        Some(alternatives.iter().map(|alternative| alternative.duplicate()).collect())
    }

    fn defer(&mut self, node: AstNode) -> TypeState {
        let id = DeferredId(self.facts.deferred.len());
        self.facts.deferred.push(DeferredRecord { id, node, resolved: false });
        TypeState::Deferred(id)
    }

    fn bind(&mut self, name: Span, node: BindingNode, mutable: bool, state: TypeState) -> BindingId {
        let id = BindingId(self.facts.bindings.len());
        self.facts.bindings.push(Binding { id, node, mutable });
        self.facts.binding_types.push(BindingType { binding: id, state });
        let text = self.text(name);
        self.scopes.last_mut().unwrap().push((text, id));
        id
    }

    fn lookup(&self, name: &str) -> Option<BindingId> {
        for scope in self.scopes.iter().rev() {
            for (known, id) in scope.iter().rev() {
                if known == name {
                    return Some(*id);
                }
            }
        }
        None
    }

    fn note_name(&mut self, node: Span, resolution: NameResolution, access: BindingAccess) {
        self.facts.name_uses.push(NameUse { node, resolution, access });
    }

    fn block(&mut self, block: &'a Block, expected: TypeState) -> TypeState {
        self.scopes.push(Vec::new());
        for statement in &block.statements {
            self.statement(statement);
        }
        let state = match &block.value {
            Some(value) => self.expression(value, expected),
            None => TypeState::Resolved(self.facts.types.unit()),
        };
        self.scopes.pop();
        state
    }

    fn body(&mut self, body: &'a StatementBody) {
        match &body.kind {
            StatementBodyKind::Block(block) => {
                self.block(block, TypeState::Error);
            },
            StatementBodyKind::Statement(statement) => {
                self.scopes.push(Vec::new());
                self.statement(statement);
                self.scopes.pop();
            },
        }
    }

    /// What a label picks out of a union.
    fn labelled(&mut self, label: &'a Type, union: TypeId) -> Option<TypeId> {
        let alternatives = self.union_of(union)?;
        match &label.kind {
            TypeKind::Parenthesized(inner) => self.labelled(inner, union),
            TypeKind::Named(name) => {
                let text = self.text(name.span);
                if let Some(declaration) = self.declared(&text) {
                    let ty = self.intern(ResolvedType::Nominal(declaration));
                    return alternatives.iter().map(carried).find(|payload| *payload == ty);
                }
                alternatives
                    .iter()
                    .find(|alternative| match alternative {
                        UnionAlternative::Tagged { tag, .. } => *tag == text,
                        UnionAlternative::Error(_) => text == "Error",
                        UnionAlternative::Untagged(_) => false,
                    })
                    .map(carried)
            },
            TypeKind::Primitive(primitive) => {
                let ty = self.facts.types.primitive(*primitive);
                alternatives.iter().map(carried).find(|payload| *payload == ty)
            },
            TypeKind::List(element) => match &element.kind {
                TypeKind::Primitive(primitive) => {
                    let element = self.facts.types.primitive(*primitive);
                    let ty = self.intern(ResolvedType::List(element));
                    alternatives.iter().map(carried).find(|payload| *payload == ty)
                },
                _ => None,
            },
            _ => None,
        }
    }

    fn narrowing(&mut self, value: &Expression, label: &'a Type) -> Option<(BindingId, TypeId)> {
        let ExpressionKind::Identifier(name) = &bare(value).kind else { return None };
        let text = self.text(name.span);
        let binding = self.lookup(&text)?;
        let TypeState::Resolved(union) = self.facts.binding_types[binding.0].state else { return None };
        let payload = self.labelled(label, union)?;
        Some((binding, payload))
    }

    fn condition(&mut self, condition: &'a Expression) -> Option<(BindingId, TypeId)> {
        self.expression(condition, TypeState::Error);
        match &bare(condition).kind {
            ExpressionKind::Is { value, ty, .. } => self.narrowing(value, ty),
            _ => None,
        }
    }

    fn statement(&mut self, statement: &'a Statement) {
        match &statement.kind {
            StatementKind::Local { mutable, name, initializer } => {
                let state = self.expression(initializer, TypeState::Error);
                self.bind(name.span, BindingNode::Local(statement.span), *mutable, state);
            },
            StatementKind::Assignment { target, operator, value, .. } => {
                self.target(target, *operator);
                self.expression(value, TypeState::Error);
            },
            StatementKind::Expression(expression) => {
                self.expression(expression, TypeState::Error);
            },
            StatementKind::Return(value) => {
                if let Some(value) = value {
                    self.expression(value, self.result);
                }
            },
            StatementKind::Break | StatementKind::Continue => {},
            StatementKind::If { branches, else_body } => {
                for branch in branches {
                    let narrowing = self.condition(&branch.condition);
                    let depth = self.narrowed.len();
                    self.narrowed.extend(narrowing);
                    self.body(&branch.body);
                    self.narrowed.truncate(depth);
                }
                if let Some(body) = else_body {
                    self.body(body);
                }
            },
            StatementKind::While { condition, body } => {
                let narrowing = self.condition(condition);
                let depth = self.narrowed.len();
                self.narrowed.extend(narrowing);
                self.body(body);
                self.narrowed.truncate(depth);
            },
            StatementKind::For { binding, iterable, body } => {
                let state = self.expression(iterable, TypeState::Error);
                let TypeState::Resolved(ty) = state else { panic!("iterable has a type") };
                let element = match &self.facts.types.entries[ty.0] {
                    ResolvedType::List(element) => *element,
                    ResolvedType::Mapping { key, .. } => *key,
                    other => panic!("cannot iterate over {other:?}"),
                };
                self.scopes.push(Vec::new());
                self.bind(binding.span, BindingNode::Loop(statement.span), false, TypeState::Resolved(element));
                self.body(body);
                self.scopes.pop();
            },
            StatementKind::Switch { value, arms, else_body } => {
                self.expression(value, TypeState::Error);
                self.defer(AstNode::Statement(statement.span));
                for arm in arms {
                    let narrowing = self.narrowing(value, &arm.label);
                    let depth = self.narrowed.len();
                    self.narrowed.extend(narrowing);
                    self.body(&arm.body);
                    self.narrowed.truncate(depth);
                }
                if let Some(body) = else_body {
                    self.body(body);
                }
            },
            StatementKind::Block(block) => {
                self.block(block, TypeState::Error);
            },
        }
    }

    fn target(&mut self, target: &'a AssignmentTarget, operator: AssignmentOperator) {
        let text = self.text(target.root.span);
        let root = self.lookup(&text).expect("assigned binding is declared");
        let access = match (operator, target.suffixes.is_empty()) {
            (AssignmentOperator::Assign, true) => BindingAccess::Write,
            (AssignmentOperator::Assign, false) => BindingAccess::Mutate,
            (_, true) => BindingAccess::ReadWrite,
            (_, false) => BindingAccess::ReadMutate,
        };
        self.note_name(target.root.span, NameResolution::Binding(root), access);
        let mut state = self.facts.binding_types[root.0].state;
        let mut steps = Vec::new();
        for suffix in &target.suffixes {
            if let AssignmentTargetSuffixKind::Index(index) = &suffix.kind {
                self.expression(index, TypeState::Error);
            }
            let TypeState::Resolved(receiver) = state else { break };
            match (&self.facts.types.entries[receiver.0], &suffix.kind) {
                (ResolvedType::List(element), AssignmentTargetSuffixKind::Index(_)) => {
                    let element = *element;
                    state = TypeState::Resolved(element);
                    steps.push(AccessPathStep::ListIndex { suffix: suffix.span, element, state });
                },
                (ResolvedType::Mapping { key, value }, AssignmentTargetSuffixKind::Index(_)) => {
                    let (key, value) = (*key, *value);
                    state = TypeState::Resolved(value);
                    steps.push(AccessPathStep::MapIndex { suffix: suffix.span, key, value, state });
                },
                (ResolvedType::Nominal(declaration), AssignmentTargetSuffixKind::Member(member)) => {
                    let declaration = *declaration;
                    match (&self.facts.type_definitions[declaration.0].kind, member) {
                        (TypeDefinitionKind::Struct(members), Member::Named(name)) => {
                            let wanted = self.text(name.span);
                            let field = members.iter().position(|item| self.text(item.name) == wanted).unwrap();
                            let found = members[field];
                            state = found.ty;
                            steps.push(AccessPathStep::StructMember {
                                suffix: suffix.span,
                                declaration,
                                member: found.node,
                                field,
                                storage: found.storage,
                                state,
                            });
                        },
                        (TypeDefinitionKind::Tuple(members), Member::TupleIndex(span)) => {
                            let position: usize = self.text(*span).parse().unwrap();
                            let found = members[position];
                            state = found.ty;
                            steps.push(AccessPathStep::TupleMember {
                                suffix: suffix.span,
                                declaration,
                                member: found.node,
                                position,
                                state,
                            });
                        },
                        _ => {
                            state = self.defer(AstNode::AssignmentTarget(target.span));
                        },
                    }
                },
                _ => {
                    state = self.defer(AstNode::AssignmentTarget(target.span));
                },
            }
        }
        self.facts.assignment_targets.push(AssignmentAnnotation { node: target.span, root: Some(root), steps, state });
    }

    fn expression(&mut self, e: &'a Expression, expected: TypeState) -> TypeState {
        let state = self.typed(e, expected);
        self.facts.expression_annotations.push(ExpressionAnnotation { node: e.span, state });
        state
    }

    fn literal(&mut self, e: &Expression, value: LiteralValue, primitive: PrimitiveType) -> TypeState {
        self.facts.literals.push(Literal { node: e.span, value });
        TypeState::Resolved(self.facts.types.primitive(primitive))
    }

    fn choice(&mut self, body: &'a ExpressionBody, expected: TypeState) -> TypeState {
        match &body.kind {
            ExpressionBodyKind::Expression(value) => self.expression(value, expected),
            ExpressionBodyKind::Block(block) => self.block(block, expected),
        }
    }

    fn typed(&mut self, e: &'a Expression, expected: TypeState) -> TypeState {
        match &e.kind {
            ExpressionKind::Unit => TypeState::Resolved(self.facts.types.unit()),
            ExpressionKind::Identifier(name) => {
                let text = self.text(name.span);
                let binding = self.lookup(&text).expect("binding is declared");
                self.note_name(name.span, NameResolution::Binding(binding), BindingAccess::Read);
                match self.narrowed.iter().rev().find(|(known, _)| *known == binding) {
                    Some((_, ty)) => TypeState::Resolved(*ty),
                    None => self.facts.binding_types[binding.0].state,
                }
            },
            ExpressionKind::Integer => {
                let value: u64 = self.text(e.span).replace('_', "").parse().unwrap();
                self.literal(e, LiteralValue::Integer(value), PrimitiveType::Int)
            },
            ExpressionKind::Float => {
                let value: f64 = self.text(e.span).replace('_', "").parse().unwrap();
                self.literal(e, LiteralValue::Float(value.to_bits()), PrimitiveType::Float)
            },
            ExpressionKind::String(bytes) => {
                self.literal(e, LiteralValue::String(bytes.clone()), PrimitiveType::Str)
            },
            ExpressionKind::Character(byte) => self.literal(e, LiteralValue::Character(*byte), PrimitiveType::Char),
            ExpressionKind::Boolean(value) => self.literal(e, LiteralValue::Boolean(*value), PrimitiveType::Bool),
            ExpressionKind::Parenthesized(inner) => match self.expression(inner, expected) {
                TypeState::Deferred(_) => self.defer(AstNode::Expression(e.span)),
                state => state,
            },
            ExpressionKind::Conversion { destination, operand } => {
                let state = self.expression(operand, TypeState::Error);
                let TypeState::Resolved(source) = state else { panic!("conversion of an open type") };
                let destination = self.facts.types.primitive(*destination);
                self.facts.numeric_conversions.push(NumericConversion { node: e.span, source, destination });
                TypeState::Resolved(destination)
            },
            ExpressionKind::List(elements) => {
                let states: Vec<TypeState> =
                    elements.iter().map(|element| self.expression(element, TypeState::Error)).collect();
                if states.contains(&TypeState::Never) {
                    return TypeState::Never;
                }
                let TypeState::Resolved(element) = states[0] else { panic!("list of an open type") };
                TypeState::Resolved(self.intern(ResolvedType::List(element)))
            },
            ExpressionKind::TypedEmptyList(ty) | ExpressionKind::TypedEmptyMap(ty) => TypeState::Resolved(self.resolve(ty)),
            ExpressionKind::Mapping(entries) => {
                let states: Vec<(TypeState, TypeState)> = entries
                    .iter()
                    .map(|entry| {
                        let key = self.expression(&entry.key, TypeState::Error);
                        (key, self.expression(&entry.value, TypeState::Error))
                    })
                    .collect();
                let (TypeState::Resolved(key), TypeState::Resolved(value)) = states[0] else {
                    panic!("map of an open type")
                };
                TypeState::Resolved(self.intern(ResolvedType::Mapping { key, value }))
            },
            ExpressionKind::Block(block) => match self.block(block, expected) {
                TypeState::Deferred(_) => self.defer(AstNode::Expression(e.span)),
                state => state,
            },
            ExpressionKind::If { branches, else_branch } => {
                let mut states = Vec::new();
                for branch in branches {
                    let narrowing = self.condition(&branch.condition);
                    let depth = self.narrowed.len();
                    self.narrowed.extend(narrowing);
                    states.push(self.choice(&branch.body, expected));
                    self.narrowed.truncate(depth);
                }
                states.push(self.choice(else_branch, expected));
                states.into_iter().find(|state| *state != TypeState::Never).unwrap_or(TypeState::Never)
            },
            ExpressionKind::Unary { operand, .. } => self.expression(operand, TypeState::Error),
            ExpressionKind::Binary { left, operator, right, .. } => {
                let first = self.expression(left, TypeState::Error);
                let second = self.expression(right, TypeState::Error);
                if first == TypeState::Never || second == TypeState::Never {
                    return TypeState::Never;
                }
                match operator {
                    BinaryOperator::LogicalOr
                    | BinaryOperator::LogicalAnd
                    | BinaryOperator::Equal
                    | BinaryOperator::NotEqual
                    | BinaryOperator::Less
                    | BinaryOperator::LessEqual
                    | BinaryOperator::Greater
                    | BinaryOperator::GreaterEqual
                    | BinaryOperator::In => TypeState::Resolved(self.facts.types.primitive(PrimitiveType::Bool)),
                    _ => first,
                }
            },
            ExpressionKind::Is { value, .. } => {
                self.expression(value, TypeState::Error);
                self.defer(AstNode::Expression(e.span))
            },
            ExpressionKind::Try { value, .. } => {
                self.expression(value, TypeState::Error);
                self.defer(AstNode::Expression(e.span))
            },
            ExpressionKind::Call { callee, arguments } => self.call(e, callee, arguments, expected),
            ExpressionKind::Index { value, index } => {
                let value = self.expression(value, TypeState::Error);
                self.expression(index, TypeState::Error);
                let TypeState::Resolved(ty) = value else { return self.defer(AstNode::Expression(e.span)) };
                let (result, kind) = match &self.facts.types.entries[ty.0] {
                    ResolvedType::List(element) => (*element, ProjectionKind::List { element: *element }),
                    ResolvedType::Mapping { key, value } => {
                        (*value, ProjectionKind::Mapping { key: *key, value: *value })
                    },
                    ResolvedType::Primitive(PrimitiveType::Str) => {
                        let result = self.facts.types.primitive(PrimitiveType::Char);
                        (result, ProjectionKind::String { result })
                    },
                    _ => return self.defer(AstNode::Expression(e.span)),
                };
                self.facts.projections.push(ProjectionResolution { node: e.span, kind });
                TypeState::Resolved(result)
            },
            ExpressionKind::Member { value, member } => {
                let declared = self.declared_state(value);
                self.expression(value, TypeState::Error);
                let TypeState::Resolved(ty) = declared else { return self.defer(AstNode::Expression(e.span)) };
                let declaration = match &self.facts.types.entries[ty.0] {
                    ResolvedType::Nominal(declaration) => *declaration,
                    _ => return self.defer(AstNode::Expression(e.span)),
                };
                let (state, kind) = match (&self.facts.type_definitions[declaration.0].kind, member) {
                    (TypeDefinitionKind::Struct(members), Member::Named(name)) => {
                        let wanted = self.text(name.span);
                        let field = members.iter().position(|item| self.text(item.name) == wanted).unwrap();
                        let TypeState::Resolved(result) = members[field].ty else { panic!("member has a type") };
                        let storage = members[field].storage;
                        (members[field].ty, ProjectionKind::Struct { declaration, field, storage, result })
                    },
                    (TypeDefinitionKind::Tuple(members), Member::TupleIndex(span)) => {
                        let position: usize = self.text(*span).parse().unwrap();
                        let TypeState::Resolved(result) = members[position].ty else { panic!("member has a type") };
                        (members[position].ty, ProjectionKind::Tuple { declaration, position, result })
                    },
                    _ => return self.defer(AstNode::Expression(e.span)),
                };
                self.facts.projections.push(ProjectionResolution { node: e.span, kind });
                state
            },
        }
    }

    /// The type of a receiver as it was declared: a union is not narrowed here.
    fn declared_state(&self, value: &Expression) -> TypeState {
        match &bare(value).kind {
            ExpressionKind::Identifier(name) => {
                let binding = self.lookup(&self.text(name.span)).unwrap();
                self.facts.binding_types[binding.0].state
            },
            ExpressionKind::Member { value, member } => {
                let TypeState::Resolved(ty) = self.declared_state(value) else { return TypeState::Error };
                let ResolvedType::Nominal(declaration) = &self.facts.types.entries[ty.0] else {
                    return TypeState::Error;
                };
                match (&self.facts.type_definitions[declaration.0].kind, member) {
                    (TypeDefinitionKind::Struct(members), Member::Named(name)) => {
                        let wanted = self.text(name.span);
                        members.iter().find(|item| self.text(item.name) == wanted).unwrap().ty
                    },
                    (TypeDefinitionKind::Tuple(members), Member::TupleIndex(span)) => {
                        let position: usize = self.text(*span).parse().unwrap();
                        members[position].ty
                    },
                    _ => TypeState::Error,
                }
            },
            ExpressionKind::Index { value, .. } => {
                let TypeState::Resolved(ty) = self.declared_state(value) else { return TypeState::Error };
                match &self.facts.types.entries[ty.0] {
                    ResolvedType::List(element) => TypeState::Resolved(*element),
                    ResolvedType::Mapping { value, .. } => TypeState::Resolved(*value),
                    _ => TypeState::Error,
                }
            },
            _ => TypeState::Error,
        }
    }

    fn arguments(&mut self, arguments: &'a Vec<Argument>) -> Vec<TypeState> {
        arguments
            .iter()
            .map(|argument| match &argument.kind {
                ArgumentKind::Positional(value) | ArgumentKind::Named { value, .. } => {
                    self.expression(value, TypeState::Error)
                },
            })
            .collect()
    }

    fn note_call(&mut self, e: &Expression, callee: &Expression, target: CallTarget) {
        self.facts.calls.push(CallResolution { node: e.span, callee: callee.span, target });
    }

    fn call(&mut self, e: &'a Expression, callee: &'a Expression, arguments: &'a Vec<Argument>, expected: TypeState) -> TypeState {
        let unit = TypeState::Resolved(self.facts.types.unit());
        match &callee.kind {
            ExpressionKind::Identifier(name) => {
                let text = self.text(name.span);
                let intrinsic = match text.as_str() {
                    "print" => Some((IntrinsicId::Print, unit)),
                    "println" => Some((IntrinsicId::Println, unit)),
                    "panic" => Some((IntrinsicId::Panic, TypeState::Never)),
                    _ => None,
                };
                if let Some((intrinsic, state)) = intrinsic {
                    let callable = CallableId::Intrinsic(intrinsic);
                    self.note_name(name.span, NameResolution::Callable(callable), BindingAccess::Read);
                    self.note_call(e, callee, CallTarget::Callable(callable));
                    self.arguments(arguments);
                    return state;
                }
                if text == "Error" {
                    self.note_name(name.span, NameResolution::ErrorConstructor, BindingAccess::Read);
                    self.note_call(e, callee, CallTarget::ErrorConstructor);
                    let states = self.arguments(arguments);
                    let TypeState::Resolved(union_type) = expected else { panic!("Error has no expected type") };
                    let TypeState::Resolved(payload) = states[0] else { panic!("Error carries a value") };
                    let alternative = UnionAlternative::Error(payload);
                    let kind = ConstructorKind::Error { union_type, alternative };
                    self.facts.constructors.push(ConstructorResolution { node: e.span, kind });
                    return expected;
                }
                if let Some(declaration) = self.declared(&text) {
                    let callable = CallableId::Constructor(declaration);
                    self.note_name(name.span, NameResolution::Callable(callable), BindingAccess::Read);
                    self.note_call(e, callee, CallTarget::Callable(callable));
                    let states = self.arguments(arguments);
                    let kind = self.constructor(declaration, arguments, &states);
                    self.facts.constructors.push(ConstructorResolution { node: e.span, kind });
                    return TypeState::Resolved(self.intern(ResolvedType::Nominal(declaration)));
                }
                let function = self.facts.function_by_name(&text).expect("function is declared");
                let callable = CallableId::Function(function);
                self.note_name(name.span, NameResolution::Callable(callable), BindingAccess::Read);
                self.note_call(e, callee, CallTarget::Callable(callable));
                self.arguments(arguments);
                self.facts.function_signatures[function.0].result
            },
            ExpressionKind::Member { value, member: Member::Named(name) } => {
                if let ExpressionKind::Identifier(owner) = &value.kind {
                    let text = self.text(owner.span);
                    if self.lookup(&text).is_none() {
                        let declaration = self.declared(&text).expect("type is declared");
                        let callable = CallableId::Constructor(declaration);
                        self.note_name(owner.span, NameResolution::Callable(callable), BindingAccess::Read);
                        self.note_call(e, callee, CallTarget::QualifiedConstructor(declaration));
                        self.arguments(arguments);
                        let wanted = self.text(name.span);
                        let ty = self.intern(ResolvedType::Nominal(declaration));
                        let alternative = self
                            .union_of(ty)
                            .unwrap()
                            .into_iter()
                            .find(|item| matches!(item, UnionAlternative::Tagged { tag, .. } if *tag == wanted))
                            .unwrap();
                        let kind = ConstructorKind::TaggedUnion { declaration, alternative };
                        self.facts.constructors.push(ConstructorResolution { node: e.span, kind });
                        return TypeState::Resolved(ty);
                    }
                }
                let declared = self.declared_state(value);
                let state = self.expression(value, TypeState::Error);
                let receiver = if declared == TypeState::Error { state } else { declared };
                let spelling = self.text(name.span);
                let int = TypeState::Resolved(self.facts.types.primitive(PrimitiveType::Int));
                let method = match receiver {
                    TypeState::Resolved(ty) => match (&self.facts.types.entries[ty.0], spelling.as_str()) {
                        (ResolvedType::List(_), "append") => Some((BuiltinMethod::ListAppend, unit)),
                        (ResolvedType::List(_), "removeIndex") => Some((BuiltinMethod::ListRemoveIndex, unit)),
                        (ResolvedType::List(_), "len") => Some((BuiltinMethod::ListLen, int)),
                        (ResolvedType::Mapping { .. }, "removeKey") => Some((BuiltinMethod::MapRemoveKey, unit)),
                        (ResolvedType::Mapping { .. }, "len") => Some((BuiltinMethod::MapLen, int)),
                        (ResolvedType::Primitive(PrimitiveType::Str), "len") => Some((BuiltinMethod::StrLen, int)),
                        _ => None,
                    },
                    _ => None,
                };
                let (target, state) = match method {
                    Some((method, state)) => (CallTarget::Builtin(method), state),
                    None => (CallTarget::Expression, self.defer(AstNode::Expression(e.span))),
                };
                self.note_call(e, callee, target);
                self.arguments(arguments);
                state
            },
            other => panic!("cannot call {other:?}"),
        }
    }

    fn constructor(&mut self, declaration: TypeDeclarationId, arguments: &'a Vec<Argument>, states: &[TypeState]) -> ConstructorKind {
        match &self.facts.type_definitions[declaration.0].kind {
            TypeDefinitionKind::Struct(members) => {
                let argument_members = arguments
                    .iter()
                    .enumerate()
                    .map(|(index, argument)| match &argument.kind {
                        ArgumentKind::Positional(_) => index,
                        ArgumentKind::Named { name, .. } => {
                            let wanted = self.text(name.span);
                            members.iter().position(|member| self.text(member.name) == wanted).unwrap()
                        },
                    })
                    .collect();
                ConstructorKind::Struct { declaration, argument_members }
            },
            TypeDefinitionKind::Tuple(_) => ConstructorKind::Tuple(declaration),
            TypeDefinitionKind::Union { alternatives, .. } => {
                let TypeState::Resolved(payload) = states[0] else { panic!("union carries a value") };
                let alternative = alternatives
                    .iter()
                    .find(|item| matches!(item, UnionAlternative::Untagged(ty) if *ty == payload))
                    .unwrap()
                    .duplicate();
                ConstructorKind::Union { declaration, alternative }
            },
            TypeDefinitionKind::Invalid => panic!("type is valid"),
        }
    }
}

fn gather<'a>(source: &'a SourceFile, program: &'a Program) -> Analysis<'a> {
    let mut analyzer = Analyzer {
        facts: Analysis {
            source,
            program,
            diagnostics: Diagnostics::new(),
            declarations: Vec::new(),
            type_definitions: Vec::new(),
            function_signatures: Vec::new(),
            type_names: Vec::new(),
            function_names: Vec::new(),
            bindings: Vec::new(),
            binding_types: Vec::new(),
            types: Types::new(),
            deferred: Vec::new(),
            type_annotations: Vec::new(),
            expression_annotations: Vec::new(),
            assignment_targets: Vec::new(),
            literals: Vec::new(),
            numeric_conversions: Vec::new(),
            projections: Vec::new(),
            calls: Vec::new(),
            constructors: Vec::new(),
            name_uses: Vec::new(),
            union_injection_subjects: Vec::new(),
            union_injections: Vec::new(),
        },
        scopes: vec![Vec::new()],
        narrowed: Vec::new(),
        result: TypeState::Error,
    };
    for declaration in &program.declarations {
        match declaration {
            Declaration::Type(node) => {
                let id = TypeDeclarationId(analyzer.facts.type_names.len());
                let name = analyzer.text(node.name.span);
                analyzer.facts.type_names.push(TypeName { name, id });
                analyzer.facts.declarations.push(DeclarationRecord {
                    id: DeclarationId::Type(id),
                    node: DeclarationNode::Type(node.span),
                });
                analyzer.facts.type_definitions.push(TypeDefinition { id, node, kind: TypeDefinitionKind::Invalid });
                analyzer.intern(ResolvedType::Nominal(id));
            },
            Declaration::Function(node) => {
                let id = FunctionId(analyzer.facts.function_names.len());
                let name = analyzer.text(node.name.span);
                analyzer.facts.function_names.push(FunctionName { name, id });
                analyzer.facts.declarations.push(DeclarationRecord {
                    id: DeclarationId::Function(id),
                    node: DeclarationNode::Function(node.span),
                });
            },
        }
    }
    let mut next = 0;
    for declaration in &program.declarations {
        let Declaration::Type(node) = declaration else { continue };
        let named = matches!(node.members[0].kind, TypeMemberKind::Named { .. });
        let kind = if named {
            let mut members = Vec::new();
            for member in &node.members {
                let TypeMemberKind::Named { name, referenced, ty } = &member.kind else { panic!("members are named") };
                let ty = TypeState::Resolved(analyzer.resolve(ty));
                let storage = if *referenced { MemberStorage::Referenced } else { MemberStorage::Inline };
                members.push(StructMember { node: member.span, name: name.span, storage, ty });
            }
            TypeDefinitionKind::Struct(members)
        } else {
            let mut types = Vec::new();
            for member in &node.members {
                let TypeMemberKind::Unnamed(ty) = &member.kind else { panic!("members are not named") };
                types.push((member.span, ty));
            }
            match &types[0].1.kind {
                TypeKind::Union(alternatives) => {
                    analyzer.resolve(types[0].1);
                    let alternatives = analyzer.alternatives(alternatives);
                    let tagged = alternatives.iter().any(|item| matches!(item, UnionAlternative::Tagged { .. }));
                    let style = if tagged { UnionStyle::Tagged } else { UnionStyle::Untagged };
                    TypeDefinitionKind::Union { style, alternatives }
                },
                _ => {
                    let mut members = Vec::new();
                    for (position, (node, ty)) in types.into_iter().enumerate() {
                        let ty = TypeState::Resolved(analyzer.resolve(ty));
                        members.push(TupleMember { node, position, ty });
                    }
                    TypeDefinitionKind::Tuple(members)
                },
            }
        };
        analyzer.facts.type_definitions[next].kind = kind;
        next += 1;
    }
    let mut scopes = Vec::new();
    for declaration in &program.declarations {
        let Declaration::Function(node) = declaration else { continue };
        let id = FunctionId(analyzer.facts.function_signatures.len());
        analyzer.scopes = vec![Vec::new()];
        let mut parameters = Vec::new();
        for parameter in &node.parameters {
            let ty = TypeState::Resolved(analyzer.resolve(&parameter.ty));
            let binding =
                analyzer.bind(parameter.name.span, BindingNode::Parameter(parameter.span), parameter.mutable, ty);
            parameters.push(ParameterSignature { binding, node: parameter, ty });
        }
        let result = match &node.return_type {
            Some(ty) => TypeState::Resolved(analyzer.resolve(ty)),
            None => TypeState::Resolved(analyzer.facts.types.unit()),
        };
        analyzer.facts.function_signatures.push(FunctionSignature { id, node, parameters, result });
        scopes.push((node, result, std::mem::take(&mut analyzer.scopes)));
    }
    for (node, result, scope) in scopes {
        analyzer.scopes = scope;
        analyzer.result = result;
        analyzer.block(&node.body, result);
    }
    analyzer.facts
}

fn source(text: &str) -> SourceFile {
    SourceFile::new("test.sao2".to_owned(), text.to_owned())
}

fn parse(source: &SourceFile) -> Result<Program, Diagnostics> {
    parser::parse(source, 1)
}

fn with_semantic_result(text: &str, inspect: impl FnOnce(&SemanticResult)) {
    let source = source(text);
    let program = parse(&source).unwrap();
    let (_, result) = semantic::analyze(gather(&source, &program));
    inspect(&result);
}

fn lower_text(text: &str) -> Result<ir::Program, LoweringError> {
    let source = SourceFile::new("lowering.sao2".to_owned(), text.to_owned());
    let syntax = parse(&source).expect("test source must parse");
    let (analysis, semantic) = semantic::analyze(gather(&source, &syntax));
    assert!(semantic.diagnostics.is_empty(), "{}", semantic.diagnostics.to_string());
    if let Err(error) = validate_handoff(&analysis, &semantic) {
        panic!("{}", error.to_string());
    }
    lower(&analysis, &semantic)
}

#[test]
fn accepts_all_four_entry_point_signatures() {
    for text in [
        "fn main() {}",
        "fn main() int { 0 }",
        "fn main(args [str]) {}",
        "fn main(args [str]) int { 0 }",
    ] {
        with_semantic_result(text, |result| {
            assert!(
                result.diagnostics.is_empty(),
                "{text}: {}",
                result.diagnostics.to_string()
            );
            assert!(result.entry_point.is_some(), "{text}");
        });
    }
}

#[test]
fn rejects_missing_or_invalid_entry_points() {
    for (text, expected) in [
        ("fn helper() {}", "requires one 'main'"),
        ("fn main(value str) {}", "invalid 'main' signature"),
        ("fn main(var args [str]) {}", "invalid 'main' signature"),
        ("fn main(args [int]) {}", "invalid 'main' signature"),
        ("fn main(first str, second str) {}", "invalid 'main' signature"),
        ("fn main() str {}", "invalid 'main' signature"),
    ] {
        with_semantic_result(text, |result| {
            assert!(result.entry_point.is_none(), "{text}");
            assert!(result.diagnostics.to_string().contains(expected), "{text}");
        });
    }
}

#[test]
fn validates_direct_and_indirect_assignment_permissions() {
    for (text, expected) in [
        ("fn main() { value := 1; value = 2; }", Some("must be declared 'var'")),
        ("fn main() { var value := 1; value = 2; }", None),
        ("fn set(value int) { value = 2; } fn main() {}", Some("must be declared 'var'")),
        ("fn set(var value int) { value = 2; } fn main() {}", None),
        ("fn main() { text := \"a\"; text = \"b\"; }", Some("must be declared 'var'")),
        ("type Choice(int | str); fn main() { value := Choice(1); value = Choice(\"x\"); }", Some("must be declared 'var'")),
        ("type Choice(int | str); fn main() { var value := Choice(1); value = Choice(\"x\"); }", None),
        ("type Box(value int); fn main() { box := Box(value = 1); box = Box(value = 2); }", None),
        ("fn main() { values := [1]; values = [2]; }", None),
        ("fn main() { values := [1]; values[0] = 2; }", Some("must be declared 'var'")),
        ("fn main() { var values := [1]; values[0] = 2; }", None),
        ("fn main() { var table := {1: 2}; table[1] = 3; }", None),
        ("type Box(value int); fn main() { box := Box(value = 1); box.value = 2; }", Some("must be declared 'var'")),
        ("type Box(value int); fn main() { var box := Box(value = 1); box.value = 2; }", None),
        ("type Box(value int); type Outer(inner &Box); fn main() { var outer := Outer(inner = Box(value = 1)); outer.inner.value = 2; }", None),
        ("type Pair(int, int); fn main() { var pair := Pair(1, 2); pair.0 = 3; }", Some("tuple members are immutable")),
        ("type Box(value int); type Holder(Box); fn main() { var holder := Holder(Box(value = 1)); holder.0.value = 2; }", None),
        ("type Box(value int); type Holder(Box); fn main() { holder := Holder(Box(value = 1)); holder.0.value = 2; }", Some("must be declared 'var'")),
    ] {
        with_semantic_result(text, |result| match expected {
            Some(expected) => assert!(result.diagnostics.to_string().contains(expected), "{text}: {}", result.diagnostics.to_string()),
            None => assert!(result.diagnostics.is_empty(), "{text}: {}", result.diagnostics.to_string()),
        });
    }
}

#[test]
fn validates_mutating_receivers_and_leaves_len_read_only() {
    for (text, expected) in [
        ("fn main() { values := [1]; values.append(2); }", Some("must be declared 'var'")),
        ("fn main() { var values := [1]; (values).removeIndex(0); }", None),
        ("type Bag(items [int]); type Holder(Bag); fn main() { var holder := Holder(Bag(items = [1])); (holder.0.items).append(2); }", None),
        ("fn main() { var table := {1: [2]}; table[1].append(3); }", None),
        ("fn main() { [1].append(2); }", Some("binding-rooted place")),
        ("fn main() { values := [1]; value := values.len(); }", None),
        ("fn main() { table := {1: 2}; table.removeKey(1); }", Some("must be declared 'var'")),
    ] {
        with_semantic_result(text, |result| match expected {
            Some(expected) => assert!(result.diagnostics.to_string().contains(expected), "{text}: {}", result.diagnostics.to_string()),
            None => assert!(result.diagnostics.is_empty(), "{text}: {}", result.diagnostics.to_string()),
        });
    }
}

#[test]
fn var_arguments_require_places_only_when_objects_are_reachable() {
    for (text, expected) in [
        ("fn take(var value int) {} fn main() { take(1); }", None),
        ("type Pair(int, str); fn take(var value Pair) {} fn main() { take(Pair(1, \"x\")); }", None),
        ("type Choice(int | str); fn take(var value Choice) {} fn main() { take(Choice(1)); }", None),
        ("type Box(value int); fn touch(var value Box) {} fn main() { value := Box(value = 1); touch(value); }", Some("must be declared 'var'")),
        ("type Box(value int); fn touch(var value Box) {} fn main() { var value := Box(value = 1); touch(value); }", None),
        ("type Box(value int); fn touch(var value Box) {} fn main() { touch(Box(value = 1)); }", Some("binding-rooted place")),
        ("type Box(value int); type Choice(int | Box); fn touch(var value Choice) {} fn main() { value := Choice(1); touch(value); }", Some("must be declared 'var'")),
    ] {
        with_semantic_result(text, |result| match expected {
            Some(expected) => assert!(result.diagnostics.to_string().contains(expected), "{text}: {}", result.diagnostics.to_string()),
            None => assert!(result.diagnostics.is_empty(), "{text}: {}", result.diagnostics.to_string()),
        });
    }
}

#[test]
fn resolves_flow_dependent_mutability_obligations() {
    with_semantic_result(
        "type Box(value int); type U(Box | int); fn main() { var value := U(Box(value = 1)); if value is Box: value.value = 2; }",
        |result| {
            assert!(result.diagnostics.is_empty(), "{}", result.diagnostics.to_string());
            assert!(result.deferred_mutability.is_empty());
            assert_eq!(result.mutability.len(), 1);
            assert!(matches!(
                result.mutability[0].operation,
                MutabilityOperation::ReplaceStructField
            ));
        },
    );
    with_semantic_result(
        "type Choice([int] | int); fn main() { var value := Choice([1]); if value is [int]: value.append(2); }",
        |result| {
            assert!(result.diagnostics.is_empty(), "{}", result.diagnostics.to_string());
            assert!(result.deferred_mutability.is_empty());
            assert_eq!(result.mutability.len(), 1);
            assert!(matches!(
                result.mutability[0].operation,
                MutabilityOperation::MutateReceiver(BuiltinMethod::ListAppend)
            ));
        },
    );
    with_semantic_result("fn main() { var values := [1]; values.append(2); }", |result| {
        assert!(result.diagnostics.is_empty(), "{}", result.diagnostics.to_string());
        assert_eq!(result.mutability.len(), 1);
        assert!(matches!(result.mutability[0].operation, MutabilityOperation::MutateReceiver(BuiltinMethod::ListAppend)));
    });
}

#[test]
fn mutability_diagnostics_use_focused_source_spans_in_source_order() {
    let text = "type Pair(int, int); fn main() { first := 1; values := [1]; values.append(2); first = 2; var pair := Pair(1, 2); pair.0 = 3; }";
    let source = source(text);
    let program = parse(&source).unwrap();
    let (_, result) = semantic::analyze(gather(&source, &program));
    let spans = result
        .diagnostics
        .into_sorted()
        .into_iter()
        .map(|diagnostic| diagnostic.primary_span().unwrap())
        .collect::<Vec<_>>();
    assert_eq!(spans.len(), 3);
    assert_eq!(spans[0].start, text.find("values.append").unwrap());
    assert_eq!(spans[1].start, text.find("first = 2").unwrap());
    assert_eq!(spans[2].start, text.find(".0 = 3").unwrap());
}

#[test]
fn validates_explicit_implicit_branching_and_diverging_returns() {
    for text in [
        "fn answer() int { return 1; } fn main() {}",
        "fn answer() int { 1 } fn main() {}",
        "fn answer() int { if true: return 1; else: return 2; } fn main() {}",
        "fn answer() int { panic(\"stop\"); } fn main() {}",
        "fn main() { return; }",
    ] {
        with_semantic_result(text, |result| {
            assert!(result.diagnostics.is_empty(), "{text}: {}", result.diagnostics.to_string());
        });
    }

    for (text, expected) in [
        (
            "fn answer() int { return; } fn main() {}",
            "requires a return value",
        ),
        (
            "fn helper() { return 1; } fn main() {}",
            "cannot return a non-unit value",
        ),
        (
            "fn answer() int {} fn main() {}",
            "may fall through",
        ),
        (
            "fn helper() { 1 } fn main() {}",
            "cannot return a non-unit value",
        ),
    ] {
        with_semantic_result(text, |result| {
            assert!(
                result.diagnostics.to_string().contains(expected),
                "{text}: {}",
                result.diagnostics.to_string()
            );
        });
    }
}

#[test]
fn records_returns_and_resolves_loop_control_to_the_nearest_loop() {
    with_semantic_result(
        "fn helper() int { while true { while true { continue; } break; } return 1; } fn main() {}",
        |result| {
            assert!(result.diagnostics.is_empty(), "{}", result.diagnostics.to_string());
            assert_eq!(result.flow.returns.len(), 1);
            assert_eq!(result.flow.loop_controls.len(), 2);
            assert!(!(result.flow.loop_controls[0].target == result.flow.loop_controls[1].target));
        },
    );

    for keyword in ["break", "continue"] {
        let text = format!("fn main() {{ {keyword}; }}");
        with_semantic_result(&text, |result| {
            assert!(
                result
                    .diagnostics
                    .to_string()
                    .contains("only valid inside a loop"),
                "{}",
                result.diagnostics.to_string()
            );
        });
    }

    with_semantic_result(
        "type Choice(int | str); fn main() { value := Choice(1); switch value { int: break; else: continue; } }",
        |result| {
            assert_eq!(
                result
                    .diagnostics
                    .to_string()
                    .matches("only valid inside a loop")
                    .count(),
                2
            );
        },
    );

    with_semantic_result(
        "type Choice(int | str); fn main() { value := Choice(1); while true { switch value { int: break; else: continue; } } }",
        |result| {
            assert!(result.diagnostics.is_empty(), "{}", result.diagnostics.to_string());
            assert_eq!(result.flow.loop_controls.len(), 2);
            assert!((result.flow.loop_controls[0].target == result.flow.loop_controls[1].target));
        },
    );
}

#[test]
fn warns_once_for_each_contiguous_unreachable_region_and_keeps_validating() {
    with_semantic_result(
        "fn helper() int { return 1; first := 1; second := 2; } fn looped() { while true { break; after_break := 1; } while true { continue; after_continue := 1; } } fn main() { panic(\"stop\"); after_panic := 1; return 2; }",
        |result| {
            assert_eq!(result.warnings.len(), 4, "{}", result.warnings.to_string());
            assert!(
                result.diagnostics.to_string().contains("cannot return a non-unit value"),
                "{}",
                result.diagnostics.to_string()
            );
        },
    );

    with_semantic_result(
        "fn answer() int { return 1; 2 } fn main() {}",
        |result| {
            assert_eq!(result.warnings.len(), 1);
            assert!(result.diagnostics.is_empty(), "{}", result.diagnostics.to_string());
        },
    );

    with_semantic_result(
        "fn main() { return; { entered := 1; return; inner_unreachable := 2; } }",
        |result| {
            assert!(result.diagnostics.is_empty(), "{}", result.diagnostics.to_string());
            assert_eq!(result.warnings.len(), 2, "{}", result.warnings.to_string());
        },
    );
}

#[test]
fn caps_real_unreachable_warnings_independently() {
    let mut text = String::new();
    for index in 0..25 {
        text.push_str(&format!(
            "fn helper{index}() {{ return; value := {index}; }} "
        ));
    }
    text.push_str("fn main() {}");
    with_semantic_result(&text, |result| {
        assert!(result.diagnostics.is_empty(), "{}", result.diagnostics.to_string());
        assert_eq!(result.warnings.len(), MAX_SOURCE_WARNINGS);
    });
}

#[test]
fn recomposes_switch_dependent_return_and_reachability_obligations() {
    with_semantic_result(
        "type Choice(int | str); fn answer(value Choice) int { switch value { int: return 1; str: return 2; } } fn main() {}",
        |result| {
            assert!(result.diagnostics.is_empty(), "{}", result.diagnostics.to_string());
            assert!(result.flow.deferred.is_empty());
        },
    );

    with_semantic_result(
        "type Choice(int | str); fn helper(value Choice) { switch value { int: return; str: return; } after := 1; } fn main() {}",
        |result| {
            assert!(result.diagnostics.is_empty(), "{}", result.diagnostics.to_string());
            assert_eq!(result.warnings.len(), 1, "{}", result.warnings.to_string());
            assert!(result.flow.deferred.is_empty());
        },
    );

    with_semantic_result(
        "type Choice(int | str); fn answer(value Choice) int { switch value { int: return 1; else: return 2; } } fn main() {}",
        |result| {
            assert!(result.diagnostics.is_empty(), "{}", result.diagnostics.to_string());
            assert!(result.flow.deferred.is_empty());
        },
    );

    with_semantic_result(
        "type Choice(int | str); fn answer(first Choice, second Choice) int { switch first { int: switch second { int: return 1; str: return 2; } str: return 3; } } fn main() {}",
        |result| {
            assert!(result.diagnostics.is_empty(), "{}", result.diagnostics.to_string());
            assert!(result.flow.deferred.is_empty());
        },
    );

    with_semantic_result(
        "type Choice(int | str); fn helper(first Choice, second Choice) { switch first { int: return; str: return; } switch second { int: return; str: return; } after := 1; } fn main() {}",
        |result| {
            assert!(result.diagnostics.is_empty(), "{}", result.diagnostics.to_string());
            assert_eq!(result.warnings.len(), 1, "{}", result.warnings.to_string());
            assert!(result.flow.deferred.is_empty());
        },
    );
}

#[test]
fn resolves_outer_function_values_after_union_analysis() {
    with_semantic_result(
        "type Choice(int | str); fn predicate(value Choice) bool { value is int } fn invalid_after_resolution(value Choice) { value is int } fn main() {}",
        |result| {
            assert!(result.diagnostics.to_string().contains("unit-returning function cannot return a non-unit value"));
            assert_eq!(
                result
                    .flow
                    .deferred
                    .iter()
                    .filter(|obligation| matches!(
                        obligation.kind,
                        DeferredFlowKind::FunctionFinalValue { .. }
                    ))
                    .count(),
                0
            );
        },
    );
}

#[test]
fn short_circuit_flow_keeps_a_boolean_result_when_only_the_right_diverges() {
    let source = source("fn main() { value := true && panic(\"stop\"); }");
    let program = parse(&source).unwrap();
    let (analysis, result) = semantic::analyze(gather(&source, &program));
    assert!(result.diagnostics.is_empty(), "{}", result.diagnostics.to_string());
    let Declaration::Function(main) = &program.declarations[0] else {
        unreachable!()
    };
    let StatementKind::Local { initializer, .. } = &main.body.statements[0].kind else {
        unreachable!()
    };
    let bool_type = analysis.types.primitive(PrimitiveType::Bool);
    assert_eq!(
        analysis.expression_annotation(initializer.span).unwrap().state,
        TypeState::Resolved(bool_type)
    );
    assert!(result.flow.summaries.iter().any(|record| {
        record.subject == FlowSubject::Expression(initializer.span)
            && record.summary.flags.fallthrough
            && record.summary.flags.diverges
    }));
}

#[test]
fn resolves_union_tests_and_exhaustive_switches_with_narrowed_reads() {
    with_semantic_result(
        "type Box(value int); type Choice(Box | str); fn read(value Choice) int { switch value { Box: return value.value; str: return 0; } } fn main() {}",
        |result| {
            assert!(result.diagnostics.is_empty(), "{}", result.diagnostics.to_string());
            assert_eq!(result.switches.len(), 1);
            assert!(result.switches[0].exhaustive);
            assert_eq!(result.switches[0].arms.len(), 2);
            assert!(result.flow.deferred.is_empty());
        },
    );

    with_semantic_result(
        "type Result(int | Error(str)); fn failed(value Result) bool { value is Error } fn main() {}",
        |result| {
            assert!(result.diagnostics.is_empty(), "{}", result.diagnostics.to_string());
            assert_eq!(result.union_tests.len(), 1);
            assert!(matches!(result.union_tests[0].alternative, UnionAlternative::Error(_)));
        },
    );
}

#[test]
fn diagnoses_contextual_switch_labels_and_coverage() {
    with_semantic_result(
        "type Choice(A(int) | B(str)); fn inspect(value Choice) { switch value { A: return; A: return; Missing: return; } } fn main() {}",
        |result| {
            let diagnostics = result.diagnostics.to_string();
            assert!(diagnostics.contains("covered more than once"), "{diagnostics}");
            assert!(diagnostics.contains("unknown union tag 'Missing'"), "{diagnostics}");
            assert!(diagnostics.contains("non-exhaustive switch; missing: B"), "{diagnostics}");
        },
    );
}

#[test]
fn warns_when_else_follows_complete_explicit_coverage() {
    with_semantic_result(
        "type Choice(int | str); fn inspect(value Choice) { switch value { int: return; str: return; else: return; } } fn main() {}",
        |result| {
            assert!(result.diagnostics.is_empty(), "{}", result.diagnostics.to_string());
            assert_eq!(result.warnings.len(), 1, "{}", result.warnings.to_string());
            assert!(result.switches[0].exhaustive);
        },
    );
}

#[test]
fn expression_flow_is_ordered_but_later_children_are_still_validated() {
    with_semantic_result(
        "fn main() { values := [panic(\"stop\"), { return; 1 }]; after := 2; }",
        |result| {
            assert!(result.diagnostics.is_empty(), "{}", result.diagnostics.to_string());
            assert_eq!(result.flow.returns.len(), 1);
            assert_eq!(result.warnings.len(), 2, "{}", result.warnings.to_string());
        },
    );
}

#[test]
fn resolves_postfix_try_success_propagation_panic_and_chaining() {
    let source = source("type Inner(int | Error(str)); type Outer(Inner | Error(str)); type Many(int | str | Error(bool)); fn propagate(value Inner) int | Error(str) { value? } fn main() () { inner := Inner(1); first := inner?; outer := Outer(Inner(2)); second := outer??; many := Many(3); choice := many?; }");
    let program = parse(&source).unwrap();
    let (analysis, result) = semantic::analyze(gather(&source, &program));
    assert!(result.diagnostics.is_empty(), "{}", result.diagnostics.to_string());
    assert_eq!(result.tries.len(), 5);
    assert!(matches!(&result.tries[0].action, TryAction::Propagate { .. }));
    assert!(result.tries[1..].iter().all(|resolution| matches!(&resolution.action, TryAction::Panic { .. })));
    assert!(matches!(analysis.types.get(result.tries.last().unwrap().success), ResolvedType::Union(alternatives) if alternatives.len() == 2));
    assert!(analysis.deferred.iter().all(|deferred| deferred.resolved));
}

#[test]
fn diagnoses_invalid_try_operands_and_error_payload_mismatches_once() {
    with_semantic_result(
        "type Failed(int | Error(str)); fn mismatch(value Failed) int | Error(bool) { value? } fn main() { plain := 1?; }",
        |result| {
            let diagnostics = result.diagnostics.to_string();
            assert!(diagnostics.contains("Error payload does not match"), "{diagnostics}");
            assert!(diagnostics.contains("operand must be a union containing Error"), "{diagnostics}");
        },
    );
}

#[test]
fn completed_semantic_results_pass_the_handoff_gate() {
    for text in [
        "fn main() {}",
        "fn main() int { var value := 1; value = 2; return value; }",
        "type Choice(int | str); fn inspect(value Choice) { if value is int: println(value); switch value { int: return; str: return; } } fn main() {}",
        "type Result(int | Error(str)); fn pass(value Result) int | Error(str) { value? } fn main() { value := Result(1); println(value?); }",
    ] {
        let source = source(text);
        let program = parse(&source).unwrap();
        let (analysis, result) = semantic::analyze(gather(&source, &program));
        assert!(result.diagnostics.is_empty(), "{text}: {}", result.diagnostics.to_string());
        if let Err(error) = validate_handoff(&analysis, &result) {
            panic!("{text}: {}", error.to_string());
        }
    }
}

#[test]
fn handoff_gate_reports_corruptions_without_panicking() {
    let source = source("fn main() { var value := 1; value = 2; }");
    let program = parse(&source).unwrap();
    let (mut analysis, mut result) = semantic::analyze(gather(&source, &program));
    assert!(result.diagnostics.is_empty());

    result.entry_point = None;
    assert!(validate_handoff(&analysis, &result).unwrap_err().to_string().contains("compiler error"));

    result.entry_point = Some(EntryPoint { function: analysis.function_by_name("main").unwrap() });
    let first = FlowRecord {
        subject: result.flow.summaries[0].subject,
        summary: result.flow.summaries[0].summary.duplicate(),
    };
    result.flow.summaries.push(first);
    assert!(validate_handoff(&analysis, &result).unwrap_err().to_string().contains("flow summary"));
    result.flow.summaries.pop();

    let expression = program.declarations.iter().find_map(|declaration| match declaration {
            Declaration::Function(function) => function.body.statements.first().and_then(|statement| match &statement.kind {
                StatementKind::Local { initializer, .. } => Some(initializer),
                _ => None,
            }),
            Declaration::Type(_) => None,
        }).unwrap();
    let id = DeferredId(analysis.deferred.len());
    analysis.deferred.push(DeferredRecord { id, node: AstNode::Expression(expression.span), resolved: false });
    assert!(validate_handoff(&analysis, &result).unwrap_err().to_string().contains("deferred"));
}

#[test]
fn handoff_gate_requires_contextual_mutation_loop_and_flow_facts() {
    fn corrupted(
        text: &str,
        mutate: impl FnOnce(&mut SemanticResult),
    ) -> String {
        let source = source(text);
        let program = parse(&source).unwrap();
        let (analysis, mut result) = semantic::analyze(gather(&source, &program));
        assert!(result.diagnostics.is_empty(), "{}", result.diagnostics.to_string());
        mutate(&mut result);
        validate_handoff(&analysis, &result).unwrap_err().to_string()
    }

    let union_source = "type Choice(int | str); fn inspect(value Choice) { if value is int: println(value); switch value { int: return; str: return; } } fn main() {}";
    assert!(corrupted(union_source, |result| result.union_tests.clear()).contains("union test"));
    assert!(corrupted(union_source, |result| result.switches.clear()).contains("switch"));
    assert!(corrupted(union_source, |result| result.switches[0].exhaustive = false).contains("switch"));
    assert!(corrupted(union_source, |result| {
        result.union_tests[0].alternative = result.switches[0].arms[1].alternative.duplicate();
    }).contains("union test"));

    let try_source = "type Result(int | Error(str)); fn pass(value Result) int | Error(str) { value? } fn main() {}";
    assert!(corrupted(try_source, |result| result.tries.clear()).contains("try"));
    assert!(corrupted(try_source, |result| {
        let function = match &result.tries[0].action {
            TryAction::Propagate { function, .. } => *function,
            TryAction::Panic { .. } => unreachable!(),
        };
        result.tries[0].action = TryAction::Panic { function };
    }).contains("try"));

    assert!(corrupted(
        "fn main() { var value := 1; value = 2; }",
        |result| result.mutability.clear(),
    ).contains("mutation"));
    assert!(corrupted(
        "fn main() { var values := [1]; values.append(2); }",
        |result| result.mutability.clear(),
    ).contains("mutation"));
    assert!(corrupted(
        "type Box(value int); fn touch(var value Box) {} fn main() { var value := Box(value = 1); touch(value); }",
        |result| result.mutability.clear(),
    ).contains("mutation"));
    assert!(corrupted(
        "fn main() { while true { break; } }",
        |result| result.flow.loop_controls.clear(),
    ).contains("loop-control"));
    assert!(corrupted(
        "fn main() { while true { break; } }",
        |result| {
            let statement = result.flow.loop_controls[0].statement;
            result.flow.loop_controls[0].target = statement;
        },
    ).contains("loop control"));
    assert!(corrupted(
        "fn main() { value := 1; }",
        |result| { result.flow.summaries.pop(); },
    ).contains("flow summary"));
}

#[test]
fn handoff_gate_requires_union_injection_coverage() {
    let source = source(
        "type Choice(int | str); fn take(value Choice) {} fn main() { take(1); }",
    );
    let program = parse(&source).unwrap();
    let (mut analysis, result) = semantic::analyze(gather(&source, &program));
    assert!(result.diagnostics.is_empty(), "{}", result.diagnostics.to_string());
    assert_eq!(analysis.union_injections.len(), 1);
    analysis.union_injections.clear();

    assert!(validate_handoff(&analysis, &result)
        .unwrap_err()
        .to_string()
        .contains("union injection"));
}

#[test]
fn lowers_and_validates_straight_line_values_deterministically() {
    let text = "type Point(x int, y int); type Pair(int, float); type Choice(int | float); type Tagged(A(int) | B(float)); type Outer(Choice | str); type Node(value int, next &Node); fn left() int { right() } fn right() int { left() } fn failure() int | Error(str) { Error(\"failed\") } fn nested() Outer { Outer(Choice(1)) } fn sum(a int, b int) int { a + b } fn main() int { p := Point(y = 2, x = 1); pair := Pair(3, 4.0); var items := [1, 2]; var table := {1: 3}; items[0] += p.x; table[1] = pair.0; empty := [] : [int]; empty_map := {} : {int: str}; choice := Choice(1); tagged := Tagged.A(1); c := \"x\"[0]; got := table[1]; f := float(items[0]); i := int(f); items.append(i); items.removeIndex(0); table.removeKey(1); println(items.len()); println(table.len()); println(\"x\".len()); sum(i, 1) }";
    let first = lower_text(text).expect("straight-line lowering must succeed");
    let second = lower_text(text).expect("repeated lowering must succeed");
    assert!(first.validate().is_ok());
    assert_eq!(first.render(), second.render());
    assert!(first.render().contains("inject"));
    assert!(first.render().contains("int-to-float"));
}

#[test]
fn lowers_an_unused_nominal_definition_with_its_canonical_type() {
    let program = lower_text("type Number(int); fn main() { print(\"x\"); }")
        .expect("unused nominal definitions must lower");
    assert!(
        program
            .types
            .contains(&ir::Type::Nominal(ir::DefinitionId::from_index(0)))
    );
    assert!(program.validate().is_ok());
}

#[test]
fn lowers_postfix_try_without_a_pending_stage() {
    let program = lower_text("type Result(int | Error(str)); fn main() { value := Result(1); value?; }").expect("postfix try must lower");
    assert!(program.render().contains("error-panic"));
}

#[test]
fn lowers_union_tests_narrowing_and_exhaustive_switches() {
    let text = "type Value(A(int) | B(str)); fn inspect(value Value) int { if value is A { narrowed := value; println(narrowed); } switch value { A: return value; B: println(value); } 0 } fn main() int { inspect(Value.A(1)) }";
    let first = lower_text(text).expect("union control flow must lower");
    let second = lower_text(text).expect("union control flow must be deterministic");
    let rendered = first.render();
    assert_eq!(rendered, second.render());
    assert!(rendered.contains("union-test"));
    assert!(rendered.contains("payload alt"));
    assert!(rendered.contains("switch"));
    assert!(first.validate().is_ok());
}

#[test]
fn lowers_try_success_unions_propagation_and_iteration_cleanup() {
    let text = "type Many(A(int) | B(str) | Error(char)); fn pass(value Many) A(int) | B(str) | Error(char) { value? } fn in_loop(values [Many]) () | Error(char) { for value in values { value?; } } fn main() { pass(Many.A(1)); }";
    let program = lower_text(text).expect("postfix try propagation must lower");
    let rendered = program.render();
    assert!(rendered.matches("switch").count() >= 2);
    assert!(rendered.contains("inject"));
    assert!(rendered.contains("end-iteration"));
    assert!(program.validate().is_ok());
}

#[test]
fn lowers_conditionals_short_circuit_returns_and_panic() {
    let text = "fn choose(flag bool) int { if flag: return 1; else: return 2; } fn value(flag bool) int { (if flag: 3 else: 4) } fn stops() bool { true || panic(\"not reached\") } fn main() int { choose(true) + value(false) }";
    let first = lower_text(text).expect("control flow must lower");
    let second = lower_text(text).expect("control flow must lower deterministically");
    let rendered = first.render();
    assert_eq!(rendered, second.render());
    assert!(rendered.contains("branch"));
    assert!(rendered.contains("panic const"));
    assert!(rendered.contains("return"));
    assert!(first.validate().is_ok());
}

#[test]
fn lowers_while_and_indexed_iteration_with_cleanup() {
    let text = "fn first(values [int], table {int: int}) int { while false: continue; for value in values { for key in table { return value; } } return 0; } fn main() int { first([1, 2], {3: 4}) }";
    let program = lower_text(text).expect("loops must lower");
    let rendered = program.render();
    assert!(rendered.contains("begin-iteration"));
    assert!(rendered.contains("iteration-value"));
    assert!(rendered.matches("end-iteration").count() >= 4);
    assert!(rendered.contains("less"));
    assert!(program.validate().is_ok());
}

#[test]
fn lowers_runtime_failures_with_ordered_checks_and_compact_sites() {
    let text = "fn main() int { a := 8; b := 2; x := 4.0; sum := a + b; difference := a - b; product := a * b; quotient := a / b; remainder := a % b; shifted := a << b; other := a >> b; float_quotient := x / 2.0; converted := int(float_quotient); var items := [sum]; var table := {a: quotient}; items[0] = table[a]; items.append(converted); items.removeIndex(-1); table.removeKey(a); println(\"index\"[-1]); shifted + other + difference + product + remainder }";
    let program = lower_text(text).expect("runtime checks must lower");
    let rendered = program.render();
    assert!(rendered.contains("integer-add-overflow"));
    assert!(rendered.contains("check division"));
    assert!(rendered.contains("check shift-range"));
    assert!(rendered.contains("check finite-float"));
    assert!(rendered.contains("check numeric-float-to-int"));
    assert!(rendered.contains("iteration-unlocked"));
    assert!(rendered.contains("list-index"));
    assert!(rendered.contains("map-index"));
    assert!(rendered.contains("string-index"));
    assert!(rendered.contains(" output\n") || rendered.contains(" output\r\n") || rendered.contains(" output"));
    assert!(program.validate().is_ok());
}

#[test]
fn lowers_signed_minimum_without_a_spurious_negation_check() {
    let program = lower_text("fn main() int { -9223372036854775808 }").expect("signed minimum must lower");
    let rendered = program.render();
    assert!(rendered.contains("const ty"));
    assert!(rendered.contains(" -9223372036854775808"));
    assert!(!rendered.contains("integer-negation"));
    assert!(program.validate().is_ok());
}

#[test]
fn compound_indexing_checks_the_read_and_write_and_mutation_checks_the_lock() {
    let program = lower_text("fn update(var items [int], delta int) int { items[0] += delta; 0 } fn main() { var items := [1]; update(items, 2); for item in items { items.append(item); break; } }").expect("checked mutations must lower");
    let rendered = program.render();
    let compound_site = program.failure_sites.iter().enumerate()
        .find(|(_, site)| site.operation == ir::FailureOperation::ListIndex)
        .map(|(index, _)| format!("! fail{index}"))
        .expect("compound list access must have a failure site");
    assert_eq!(rendered.matches(&compound_site).count(), 2);
    assert!(rendered.contains("iteration-unlocked"));
    assert!(rendered.contains("list-append"));
    assert!(program.validate().is_ok());
}

#[test]
fn missing_flow_facts_are_lowering_invariants() {
    let source = SourceFile::new("flow.sao2".to_owned(), "fn main() { if true: return; }".to_owned());
    let syntax = parse(&source).unwrap();
    let (analysis, mut semantic) = semantic::analyze(gather(&source, &syntax));
    assert!(semantic.diagnostics.is_empty());
    semantic.flow.summaries.clear();
    assert!(matches!(lower(&analysis, &semantic), Err(LoweringError::Invariant(_))));
}

#[test]
fn corrupted_return_completion_and_loop_targets_are_invariants() {
    {
        let source = SourceFile::new("return.sao2".to_owned(), "fn main() { return; }".to_owned());
        let syntax = parse(&source).unwrap();
        let (analysis, mut semantic) = semantic::analyze(gather(&source, &syntax));
        semantic.flow.returns.clear();
        assert!(matches!(lower(&analysis, &semantic), Err(LoweringError::Invariant(_))));
    }
    {
        let source = SourceFile::new("completion.sao2".to_owned(), "fn main() {}".to_owned());
        let syntax = parse(&source).unwrap();
        let (analysis, mut semantic) = semantic::analyze(gather(&source, &syntax));
        semantic.flow.completions.clear();
        assert!(matches!(lower(&analysis, &semantic), Err(LoweringError::Invariant(_))));
    }
    {
        let source = SourceFile::new("loop.sao2".to_owned(), "fn main() { while true: break; }".to_owned());
        let syntax = parse(&source).unwrap();
        let (analysis, mut semantic) = semantic::analyze(gather(&source, &syntax));
        let control = semantic.flow.loop_controls[0].statement;
        semantic.flow.loop_controls[0].target = control;
        assert!(matches!(lower(&analysis, &semantic), Err(LoweringError::Invariant(_))));
    }
}

#[test]
fn missing_frontend_facts_are_lowering_invariants() {
    let source = SourceFile::new(
        "corrupt.sao2".to_owned(),
        "type Pair(int); fn main() int { pair := Pair(1); converted := float(pair.0); int(converted) }".to_owned(),
    );
    let syntax = parse(&source).unwrap();
    let (mut analysis, semantic) = semantic::analyze(gather(&source, &syntax));
    assert!(semantic.diagnostics.is_empty());
    analysis.projections.clear();
    let error = lower(&analysis, &semantic).unwrap_err();
    assert!(matches!(error, LoweringError::Invariant(_)));
}

#[test]
fn an_accepted_program_leaves_nothing_open() {
    let text = "type Choice(int | str); fn read(value Choice) int { switch value { int: return 1; str: return 0; } } fn main() { var total := 0; while true { total = 1; break; } }";
    let source = source(text);
    let program = parse(&source).unwrap();
    let (analysis, result) = semantic::analyze(gather(&source, &program));
    assert!(result.diagnostics.is_empty(), "{}", result.diagnostics.to_string());
    assert!(result.entry_point.is_some());
    assert!(analysis.deferred.iter().all(|record| record.resolved));
    assert!(result.flow.deferred.is_empty());
    assert!(result.deferred_mutability.is_empty());
    assert_eq!(result.switches.len(), 1);
    assert_eq!(result.flow.loop_controls.len(), 1);
    assert_eq!(result.mutability.len(), 1);
}

#[test]
fn a_lowering_error_names_the_broken_invariant() {
    let error = LoweringError::Invariant("no entry".to_owned());
    assert_eq!(error.to_string(), "IR lowering invariant violated: no entry");
}

#[test]
fn a_lowered_program_is_valid_and_starts_at_main() {
    let program = lower_text("fn helper() int { 1 } fn main() int { helper() }").unwrap();
    assert!(program.validate().is_ok());
    let entry = program.entry.unwrap();
    assert_eq!(program.functions[entry.index()].name, "main");
}

#[test]
fn handoff_gate_rejects_a_foreign_ast_subject() {
    let primary_source = source("fn main() {}");
    let program = parser::parse(&primary_source, 1).unwrap();
    let foreign_source = source("fn main() {}");
    let foreign_program = parser::parse(&foreign_source, 2).unwrap();
    let (analysis, mut result) = semantic::analyze(gather(&primary_source, &program));
    assert!(validate_handoff(&analysis, &result).is_ok());

    let foreign_body = match &foreign_program.declarations[0] {
        Declaration::Function(function) => &function.body,
        Declaration::Type(_) => unreachable!(),
    };
    result.flow.summaries[0].subject = FlowSubject::Block(foreign_body.span);

    assert!(validate_handoff(&analysis, &result).unwrap_err().to_string().contains("flow summary"));
}

#[test]
fn handoff_rejects_facts_about_another_tree() {
    let source = source("fn main() int { 1 }");
    let program = parse(&source).unwrap();
    let (mut analysis, result) = semantic::analyze(gather(&source, &program));
    analysis.expression_annotations[0].node.tree = 9;
    let fault = validate_handoff(&analysis, &result).unwrap_err().to_string();
    assert!(fault.contains("expression annotation is invalid or has a foreign AST subject"), "{fault}");
}

#[test]
fn handoff_rejects_a_subject_that_is_no_node_of_the_program() {
    let source = source("fn main() {}");
    let program = parse(&source).unwrap();
    let (analysis, mut result) = semantic::analyze(gather(&source, &program));
    result.flow.summaries[0].subject = FlowSubject::Block(Span::new(0, 1));
    assert!(validate_handoff(&analysis, &result).unwrap_err().to_string().contains("flow summary"));
}

#[test]
fn lowering_keeps_declarations_in_order_and_lists_no_type_twice() {
    let program = lower_text("type Point(x int); type Pair(int, int); fn helper() int { 1 } fn main() {}").unwrap();
    let functions: Vec<&str> = program.functions.iter().map(|function| function.name.as_str()).collect();
    assert_eq!(functions, vec!["helper", "main"]);
    assert!(program.functions.iter().all(|function| function.entry.is_some()));
    let definitions: Vec<&str> = program.definitions.iter().map(|definition| definition.name.as_str()).collect();
    assert_eq!(definitions, vec!["Point", "Pair"]);
    for (index, ty) in program.types.iter().enumerate() {
        assert!(program.types[..index].iter().all(|earlier| !earlier.same(ty)));
    }
}

#[test]
fn programs_with_the_same_contents_have_the_same_error() {
    let text = "fn main() int { 1 }";
    let mut first = lower_text(text).unwrap();
    let mut second = lower_text(text).unwrap();
    assert_eq!(first.render(), second.render());
    assert!(first.validate().is_ok() && second.validate().is_ok());
    first.functions[0].name = String::new();
    second.functions[0].name = String::with_capacity(9);
    assert_eq!(first.validate().unwrap_err().to_string(), second.validate().unwrap_err().to_string());
}

/// Makes the element of the first list type a type that is listed behind it.
fn with_a_later_element(analysis: &mut Analysis) {
    let later = TypeId(analysis.types.entries.len());
    analysis.types.entries.push(ResolvedType::Primitive(PrimitiveType::Int));
    let list = analysis
        .types
        .entries
        .iter_mut()
        .find(|ty| matches!(ty, ResolvedType::List(_)))
        .expect("a list type");
    *list = ResolvedType::List(later);
}

#[test]
fn names_types_whose_components_are_listed_later() {
    let source = source("type Choice([int] | str); fn f(value Choice) int { switch value { str: return 0; } } fn main() {}");
    let program = parse(&source).unwrap();
    let mut analysis = gather(&source, &program);
    with_a_later_element(&mut analysis);
    let (_, result) = semantic::analyze(analysis);
    let text = result.diagnostics.to_string();
    assert!(text.contains("non-exhaustive switch; missing: [int]"), "{text}");
}

#[test]
fn lowers_types_whose_components_are_listed_later() {
    let source = source("fn first(values [int]) {} fn main() {}");
    let program = parse(&source).unwrap();
    let (mut analysis, result) = semantic::analyze(gather(&source, &program));
    assert!(result.diagnostics.is_empty(), "{}", result.diagnostics.to_string());
    let before = lower(&analysis, &result).unwrap().render();
    with_a_later_element(&mut analysis);
    assert_eq!(lower(&analysis, &result).unwrap().render(), before);
}

#[test]
fn a_type_that_is_part_of_itself_is_not_lowered() {
    let source = source("fn first(values [int]) {} fn main() {}");
    let program = parse(&source).unwrap();
    let (mut analysis, result) = semantic::analyze(gather(&source, &program));
    let index = analysis.types.entries.iter().position(|ty| matches!(ty, ResolvedType::List(_))).unwrap();
    analysis.types.entries[index] = ResolvedType::List(TypeId(index));
    let error = lower(&analysis, &result).unwrap_err();
    assert_eq!(error.to_string(), "IR lowering invariant violated: frontend type is part of itself");
}

#[test]
fn facts_without_flow_summaries_are_not_lowered() {
    let source = source("fn main() int { 1 }");
    let program = parse(&source).unwrap();
    let (analysis, mut result) = semantic::analyze(gather(&source, &program));
    assert!(lower(&analysis, &result).is_ok());
    result.flow.summaries.clear();
    assert!(matches!(lower(&analysis, &result), Err(LoweringError::Invariant(_))));
}
