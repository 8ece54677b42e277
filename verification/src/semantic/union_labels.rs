//! How labels of union alternatives, postfix `?`, calls and assignment targets are resolved.

use crate::analysis::{
    AccessPathStep, AlternativeView, AstNode, BindingId, BuiltinMethod, CallResolution, CallTarget, CallableId,
    IntrinsicId, ParameterSignature, TypeAnnotation, TypeDeclarationId, TypeDefinitionKind, TypeId, TypeName,
    TypeState, UnionStyle, latest, payload_of, primitive_type, unit_type,
};
use crate::ast::{
    Argument, ArgumentKind, AssignmentTarget, AssignmentTargetSuffix, AssignmentTargetSuffixKind, Expression,
    ExpressionKind, Member, PrimitiveType, Type, TypeKind,
};
use crate::lowering::rules::text_at;
use crate::semantic::flow_rules::first_fact;
use crate::semantic::union_rules::{
    Home, Shape, TargetView, TestFact, TryActionView, TryFact, UnionContext, UnionState, bare_type, bound,
    changed, errors_in, exact, expected_value, interned, known, member_named, narrowed_to, objected, parts,
    position_at, retyped, settled, shape_of, unsupported,
};
use crate::source::{SourceFile, Span};
use vstd::prelude::*;
use vstd::utf8::encode_utf8;

verus! {

/// The first declared type from one on with a name.
pub open spec fn type_named(names: Seq<TypeName>, name: Seq<char>, from: int) -> Option<TypeDeclarationId>
    decreases names.len() - from,
{
    if from < 0 || from >= names.len() {
        None
    } else if names[from].name@ == name {
        Some(names[from].id)
    } else {
        type_named(names, name, from + 1)
    }
}

/// The first error alternative from one on.
pub open spec fn first_error(alternatives: Seq<AlternativeView>, from: int) -> Option<AlternativeView>
    decreases alternatives.len() - from,
{
    if from < 0 || from >= alternatives.len() {
        None
    } else if alternatives[from] is Error {
        Some(alternatives[from])
    } else {
        first_error(alternatives, from + 1)
    }
}

/// The first alternative from one on with a tag.
pub open spec fn first_tagged(
    alternatives: Seq<AlternativeView>,
    wanted: Seq<char>,
    from: int,
) -> Option<AlternativeView>
    decreases alternatives.len() - from,
{
    if from < 0 || from >= alternatives.len() {
        None
    } else if alternatives[from] is Tagged && alternatives[from]->tag == wanted {
        Some(alternatives[from])
    } else {
        first_tagged(alternatives, wanted, from + 1)
    }
}

/// The first untagged alternative from one on that carries a type.
pub open spec fn first_untagged(
    alternatives: Seq<AlternativeView>,
    payload: TypeId,
    from: int,
) -> Option<AlternativeView>
    decreases alternatives.len() - from,
{
    if from < 0 || from >= alternatives.len() {
        None
    } else if alternatives[from] == AlternativeView::Untagged(payload) {
        Some(alternatives[from])
    } else {
        first_untagged(alternatives, payload, from + 1)
    }
}

/// A type in the source gets a type.
#[verifier::opaque]
pub open spec fn type_noted(s: UnionState, node: Span, ty: TypeId) -> UnionState {
    UnionState {
        type_annotations: s.type_annotations.push(TypeAnnotation { node, state: TypeState::Resolved(ty) }),
        ..s
    }
}

/// A label that names an alternative stands for what that carries, with and without its parentheses.
#[verifier::opaque]
pub open spec fn label_noted(s: UnionState, label: &Type, payload: TypeId) -> UnionState
    decreases label,
{
    let s = type_noted(s, label.span, payload);
    match &label.kind {
        TypeKind::Parenthesized(inner) => label_noted(s, inner, payload),
        _ => s,
    }
}

/// Whether one text comes before another, byte by byte.
pub open spec fn bytes_before(left: Seq<u8>, right: Seq<u8>, from: int) -> bool
    decreases right.len() - from,
{
    if from < 0 || from >= right.len() {
        false
    } else if from >= left.len() {
        true
    } else if left[from] != right[from] {
        left[from] < right[from]
    } else {
        bytes_before(left, right, from + 1)
    }
}

/// The kinds of alternatives in order.
pub open spec fn rank(alternative: AlternativeView) -> int {
    match alternative {
        AlternativeView::Untagged(_) => 0,
        AlternativeView::Tagged { .. } => 1,
        AlternativeView::Error(_) => 2,
    }
}

/// Whether one alternative comes before another: by kind, by tag, and by what it carries.
pub open spec fn comes_before(left: AlternativeView, right: AlternativeView) -> bool {
    match (left, right) {
        (AlternativeView::Untagged(left), AlternativeView::Untagged(right)) => left.0 < right.0,
        (
            AlternativeView::Tagged { tag: left_tag, payload: left },
            AlternativeView::Tagged { tag: right_tag, payload: right },
        ) => bytes_before(encode_utf8(left_tag), encode_utf8(right_tag), 0) || left_tag == right_tag && left.0 < right.0,
        (AlternativeView::Error(left), AlternativeView::Error(right)) => left.0 < right.0,
        _ => rank(left) < rank(right),
    }
}

/// Alternatives in order, with one more put among them.
pub open spec fn put_among(sorted: Seq<AlternativeView>, item: AlternativeView) -> Seq<AlternativeView>
    decreases sorted.len(),
{
    if sorted.len() > 0 && comes_before(item, sorted.last()) {
        put_among(sorted.drop_last(), item).push(sorted.last())
    } else {
        sorted.push(item)
    }
}

/// The first `count` alternatives in order.
pub open spec fn in_rank_order(alternatives: Seq<AlternativeView>, count: int) -> Seq<AlternativeView>
    decreases count,
{
    if count <= 0 {
        seq![]
    } else {
        put_among(in_rank_order(alternatives, count - 1), alternatives[count - 1])
    }
}

/// What a type that was resolved is noted as.
#[verifier::opaque]
pub open spec fn type_settled(s: UnionState, node: Span, resolved: Option<TypeId>) -> (UnionState, Option<TypeId>) {
    match resolved {
        Some(ty) => (type_noted(s, node, ty), resolved),
        None => (s, resolved),
    }
}

/// A type in the source that is just a name.
#[verifier::opaque]
pub open spec fn named_type(c: UnionContext, s: UnionState, name: Span) -> (UnionState, Option<TypeId>) {
    let spelling = text_at(c.source, name);
    match type_named(c.type_names, spelling, 0) {
        Some(declaration) => {
            let (s, ty) = interned(s, Shape::Nominal(declaration));
            (s, Some(ty))
        },
        None => (objected(c, s, name, "unknown type '"@ + spelling + "'"@), None),
    }
}

/// A type in the source.
#[verifier::opaque]
pub open spec fn label_type(c: UnionContext, s: UnionState, ty: &Type) -> (UnionState, Option<TypeId>)
    decreases ty, 1int,
{
    let (s, resolved) = match &ty.kind {
        TypeKind::Unit => (s, Some(unit_type())),
        TypeKind::Primitive(primitive) => (s, Some(primitive_type(*primitive))),
        TypeKind::Named(identifier) => named_type(c, s, identifier.span),
        TypeKind::List(element) => {
            let (s, element) = label_type(c, s, element);
            match element {
                Some(element) => {
                    let (s, ty) = interned(s, Shape::List(element));
                    (s, Some(ty))
                },
                None => (s, None),
            }
        },
        TypeKind::Mapping { key, value } => {
            let (s, key) = label_type(c, s, key);
            let (s, value) = label_type(c, s, value);
            match (key, value) {
                (Some(key), Some(value)) => {
                    let (s, ty) = interned(s, Shape::Mapping { key, value });
                    (s, Some(ty))
                },
                _ => (s, None),
            }
        },
        TypeKind::Union(alternatives) => {
            let (s, resolved) = label_alternatives(c, s, alternatives@, 0, seq![]);
            let (s, ty) = interned(s, Shape::Union(in_rank_order(resolved, resolved.len() as int)));
            (s, Some(ty))
        },
        TypeKind::Parenthesized(inner) => label_type(c, s, inner),
        TypeKind::Tagged { .. } => (
            objected(c, s, ty.span, "tagged alternative is only valid within a union type"@),
            None,
        ),
    };
    type_settled(s, ty.span, resolved)
}

/// One alternative of a union type in the source.
#[verifier::opaque]
pub open spec fn label_alternative(
    c: UnionContext,
    s: UnionState,
    alternative: &Type,
) -> (UnionState, Option<AlternativeView>)
    decreases alternative, 2int,
{
    match &alternative.kind {
        TypeKind::Tagged { tag, payload } => {
            let (s, payload) = label_type(c, s, payload);
            (
                s,
                match payload {
                    Some(payload) => if text_at(c.source, tag.span) == "Error"@ {
                        Some(AlternativeView::Error(payload))
                    } else {
                        Some(AlternativeView::Tagged { tag: text_at(c.source, tag.span), payload })
                    },
                    None => None,
                },
            )
        },
        _ => {
            let (s, payload) = label_type(c, s, alternative);
            (
                s,
                match payload {
                    Some(payload) => Some(AlternativeView::Untagged(payload)),
                    None => None,
                },
            )
        },
    }
}

/// The alternatives of a union type in the source from one on.
#[verifier::opaque]
pub open spec fn label_alternatives(
    c: UnionContext,
    s: UnionState,
    alternatives: Seq<Type>,
    from: int,
    resolved: Seq<AlternativeView>,
) -> (UnionState, Seq<AlternativeView>)
    decreases alternatives, alternatives.len() - from,
{
    if from < 0 || from >= alternatives.len() {
        (s, resolved)
    } else {
        let (s, alternative) = label_alternative(c, s, &alternatives[from]);
        label_alternatives(
            c,
            s,
            alternatives,
            from + 1,
            match alternative {
                Some(alternative) => resolved.push(alternative),
                None => resolved,
            },
        )
    }
}

/// A label that is found by its name, or not.
#[verifier::opaque]
pub open spec fn picked(
    c: UnionContext,
    s: UnionState,
    label: &Type,
    name: Span,
    selected: Option<AlternativeView>,
    message: Seq<char>,
) -> (UnionState, Option<AlternativeView>) {
    match selected {
        Some(alternative) => (label_noted(s, label, payload_of(alternative)), selected),
        None => (objected(c, s, name, message), None),
    }
}

/// A label that is a type.
#[verifier::opaque]
pub open spec fn type_label(c: UnionContext, s: UnionState, label: &Type, alternatives: Seq<AlternativeView>) -> (
    UnionState,
    Option<AlternativeView>,
) {
    let (s, ty) = label_type(c, s, label);
    match ty {
        None => (s, None),
        Some(ty) => match first_untagged(alternatives, ty, 0) {
            Some(alternative) => (s, Some(alternative)),
            None => (objected(c, s, label.span, "type label is not an alternative of this union"@), None),
        },
    }
}

/// The alternative that a label stands for.
#[verifier::opaque]
pub open spec fn label_rule(
    c: UnionContext,
    s: UnionState,
    label: &Type,
    style: UnionStyle,
    alternatives: Seq<AlternativeView>,
) -> (UnionState, Option<AlternativeView>) {
    match &bare_type(label).kind {
        TypeKind::Named(identifier) => {
            let spelling = text_at(c.source, identifier.span);
            let declared = type_named(c.type_names, spelling, 0);
            if spelling == "Error"@ {
                picked(
                    c,
                    s,
                    label,
                    identifier.span,
                    first_error(alternatives, 0),
                    "union has no Error alternative"@,
                )
            } else if style == UnionStyle::Tagged {
                if declared is Some {
                    (objected(c, s, identifier.span, "tagged union requires a tag label, not a type label"@), None)
                } else {
                    picked(
                        c,
                        s,
                        label,
                        identifier.span,
                        first_tagged(alternatives, spelling, 0),
                        "unknown union tag '"@ + spelling + "'"@,
                    )
                }
            } else if declared is None {
                (objected(c, s, identifier.span, "untagged union requires a type label, not a tag label"@), None)
            } else {
                type_label(c, s, label, alternatives)
            }
        },
        _ => if style == UnionStyle::Tagged {
            (objected(c, s, label.span, "tagged union requires a bare tag label"@), None)
        } else {
            type_label(c, s, label, alternatives)
        },
    }
}

/// A postfix `?` that is wrong.
#[verifier::opaque]
pub open spec fn try_refused(
    c: UnionContext,
    s: UnionState,
    expression: Span,
    operator: Span,
    message: Seq<char>,
) -> UnionState {
    retyped(objected(c, s, operator, message), expression, TypeState::Error)
}

/// How many of the first `count` alternatives are errors that carry a type.
pub open spec fn count_errors(alternatives: Seq<AlternativeView>, payload: TypeId, count: int) -> nat
    decreases count,
{
    if count <= 0 {
        0
    } else if alternatives[count - 1] == AlternativeView::Error(payload) {
        count_errors(alternatives, payload, count - 1) + 1
    } else {
        count_errors(alternatives, payload, count - 1)
    }
}

/// What a postfix `?` does with an error of a type, if its function can give it back.
#[verifier::opaque]
pub open spec fn try_action(
    c: UnionContext,
    s: UnionState,
    home: Home,
    payload: TypeId,
) -> Result<TryActionView, &'static str> {
    if text_at(c.source, home.name) == "main"@ {
        Ok(TryActionView::Panic { function: home.function })
    } else {
        match parts(c, s, home.result) {
            None => Err("enclosing function result must be a union with the same Error payload"),
            Some((destination_union, _, alternatives)) => if count_errors(
                alternatives,
                payload,
                alternatives.len() as int,
            ) == 1 {
                Ok(
                    TryActionView::Propagate {
                        function: home.function,
                        destination_union,
                        destination_error: AlternativeView::Error(payload),
                    },
                )
            } else {
                Err("postfix '?' Error payload does not match the enclosing function result")
            },
        }
    }
}

/// What a postfix `?` leaves where there is no error.
#[verifier::opaque]
pub open spec fn try_success(s: UnionState, alternatives: Seq<AlternativeView>) -> (UnionState, TypeId) {
    let successes = errors_in(alternatives, false, alternatives.len() as int);
    if successes.len() == 1 {
        (s, payload_of(successes[0]))
    } else {
        interned(s, Shape::Union(successes))
    }
}

/// A postfix `?` is noted.
#[verifier::opaque]
pub open spec fn try_noted(s: UnionState, fact: TryFact) -> UnionState {
    UnionState { tries: s.tries.push(fact), ..s }
}

/// A postfix `?`.
#[verifier::opaque]
pub open spec fn try_typed(
    c: UnionContext,
    s: UnionState,
    home: Home,
    expression: Span,
    operator: Span,
    operand: TypeState,
) -> UnionState {
    if operand == TypeState::Never {
        changed(s, expression, TypeState::Never)
    } else {
        match parts(c, s, operand) {
            None => if operand == TypeState::Error {
                retyped(s, expression, TypeState::Error)
            } else {
                try_refused(c, s, expression, operator, "postfix '?' operand must be a union containing Error"@)
            },
            Some((operand_union, _, alternatives)) => {
                let errors = errors_in(alternatives, true, alternatives.len() as int);
                if errors.len() != 1 {
                    try_refused(
                        c,
                        s,
                        expression,
                        operator,
                        "postfix '?' operand union must contain exactly one direct Error alternative"@,
                    )
                } else {
                    let (s, success) = try_success(s, alternatives);
                    match try_action(c, s, home, payload_of(errors[0])) {
                        Err(message) => try_refused(c, s, expression, operator, message@),
                        Ok(action) => try_noted(
                            retyped(s, expression, TypeState::Resolved(success)),
                            TryFact {
                                expression,
                                operator_span: operator,
                                operand_union,
                                source_error: errors[0],
                                success,
                                widening: None,
                                action,
                            },
                        ),
                    }
                }
            },
        }
    }
}

/// A union test is noted.
#[verifier::opaque]
pub open spec fn test_noted(s: UnionState, fact: TestFact) -> UnionState {
    UnionState { tests: s.tests.push(fact), ..s }
}

/// A union test.
#[verifier::opaque]
pub open spec fn is_typed(
    c: UnionContext,
    s: UnionState,
    expression: Span,
    value: &Expression,
    label: &Type,
) -> UnionState {
    let state = known(s, value.span);
    let binding = exact(c, value);
    match parts(c, s, state) {
        Some((operand_union, style, alternatives)) => {
            let (s, selected) = label_rule(c, s, label, style, alternatives);
            match selected {
                Some(alternative) => retyped(
                    test_noted(
                        s,
                        TestFact {
                            expression,
                            operand_union,
                            alternative,
                            payload: payload_of(alternative),
                            binding,
                        },
                    ),
                    expression,
                    TypeState::Resolved(primitive_type(PrimitiveType::Bool)),
                ),
                None => retyped(s, expression, TypeState::Error),
            }
        },
        None => retyped(
            if state is Error || state is Never {
                s
            } else {
                objected(c, s, value.span, "'is' operand must have a union type"@)
            },
            expression,
            TypeState::Error,
        ),
    }
}

/// The expression that an argument passes.
pub open spec fn passed(argument: Argument) -> Expression {
    match argument.kind {
        ArgumentKind::Positional(value) => value,
        ArgumentKind::Named { value, .. } => value,
    }
}

/// The type of the first parameter from one on with a name.
pub open spec fn parameter_named(
    source: &SourceFile,
    parameters: Seq<ParameterSignature>,
    name: Seq<char>,
    from: int,
) -> Option<
    TypeState,
>
    decreases parameters.len() - from,
{
    if from < 0 || from >= parameters.len() {
        None
    } else if text_at(source, parameters[from].node.name.span) == name {
        Some(parameters[from].ty)
    } else {
        parameter_named(source, parameters, name, from + 1)
    }
}

/// The type that an argument is expected to have.
#[verifier::opaque]
pub open spec fn argument_type(
    c: UnionContext,
    parameters: Seq<ParameterSignature>,
    argument: Argument,
    positional: int,
) -> Option<
    TypeState,
> {
    match argument.kind {
        ArgumentKind::Positional(_) => if 0 <= positional < parameters.len() {
            Some(parameters[positional].ty)
        } else {
            None
        },
        ArgumentKind::Named { name, .. } => parameter_named(c.source, parameters, text_at(c.source, name.span), 0),
    }
}

/// One argument of a call of a function.
#[verifier::opaque]
pub open spec fn argument_checked(
    c: UnionContext,
    s: UnionState,
    argument: Argument,
    expected: Option<TypeState>,
) -> UnionState {
    match expected {
        Some(TypeState::Resolved(expected)) => expected_value(
            c,
            s,
            &passed(argument),
            expected,
            "argument type does not match parameter type"@,
        ),
        _ => s,
    }
}

/// The arguments of a call of a function from one on.
#[verifier::opaque]
pub open spec fn arguments_checked(
    c: UnionContext,
    s: UnionState,
    parameters: Seq<ParameterSignature>,
    arguments: Seq<Argument>,
    from: int,
    positional: int,
) -> UnionState
    decreases arguments.len() - from,
{
    if from < 0 || from >= arguments.len() {
        s
    } else {
        let expected = argument_type(c, parameters, arguments[from], positional);
        arguments_checked(
            c,
            argument_checked(c, s, arguments[from], expected),
            parameters,
            arguments,
            from + 1,
            if arguments[from].kind is Positional {
                positional + 1
            } else {
                positional
            },
        )
    }
}

/// What an intrinsic function gives back.
pub open spec fn intrinsic_result(intrinsic: IntrinsicId) -> TypeState {
    match intrinsic {
        IntrinsicId::Print => TypeState::Resolved(unit_type()),
        IntrinsicId::Println => TypeState::Resolved(unit_type()),
        IntrinsicId::Panic => TypeState::Never,
    }
}

/// A built-in method of a type: what it takes and what it gives back.
#[verifier::opaque]
pub open spec fn method_of(s: UnionState, receiver: TypeId, name: Seq<char>) -> Option<
    (BuiltinMethod, Option<TypeId>, TypeState),
> {
    let unit = TypeState::Resolved(unit_type());
    let int_type = primitive_type(PrimitiveType::Int);
    match shape_of(s, receiver) {
        Some(Shape::List(element)) => if name == "append"@ {
            Some((BuiltinMethod::ListAppend, Some(element), unit))
        } else if name == "removeIndex"@ {
            Some((BuiltinMethod::ListRemoveIndex, Some(int_type), unit))
        } else if name == "len"@ {
            Some((BuiltinMethod::ListLen, None, TypeState::Resolved(int_type)))
        } else {
            None
        },
        Some(Shape::Mapping { key, .. }) => if name == "removeKey"@ {
            Some((BuiltinMethod::MapRemoveKey, Some(key), unit))
        } else if name == "len"@ {
            Some((BuiltinMethod::MapLen, None, TypeState::Resolved(int_type)))
        } else {
            None
        },
        Some(Shape::Primitive(PrimitiveType::Str)) => if name == "len"@ {
            Some((BuiltinMethod::StrLen, None, TypeState::Resolved(int_type)))
        } else {
            None
        },
        _ => None,
    }
}

/// A call gets a built-in method as its target.
#[verifier::opaque]
pub open spec fn retargeted(s: UnionState, call: Span, method: BuiltinMethod) -> UnionState {
    match first_fact(s.calls, call, 0) {
        Some(i) => UnionState {
            calls: s.calls.update(i, CallResolution { target: CallTarget::Builtin(method), ..s.calls[i] }),
            ..s
        },
        None => s,
    }
}

/// The argument of a built-in method.
#[verifier::opaque]
pub open spec fn method_checked(
    c: UnionContext,
    s: UnionState,
    expected: Option<TypeId>,
    arguments: Seq<Argument>,
) -> UnionState {
    match expected {
        Some(expected) => if arguments.len() > 0 {
            expected_value(
                c,
                s,
                &passed(arguments[0]),
                expected,
                "method argument type does not match the narrowed receiver type"@,
            )
        } else {
            s
        },
        None => s,
    }
}

/// A call that may be one of a built-in method.
#[verifier::opaque]
pub open spec fn method_typed(
    c: UnionContext,
    s: UnionState,
    call: Span,
    callee: &Expression,
    arguments: Seq<Argument>,
) -> UnionState {
    match &callee.kind {
        ExpressionKind::Member { value, member } => match (known(s, value.span), member) {
            (TypeState::Resolved(receiver), Member::Named(name)) => match method_of(
                s,
                receiver,
                text_at(c.source, name.span),
            ) {
                Some((method, expected, result)) => changed(
                    retargeted(method_checked(c, s, expected, arguments), call, method),
                    call,
                    result,
                ),
                None => unsupported(c, s, call, "method is not available on the narrowed alternative"@),
            },
            _ => s,
        },
        _ => s,
    }
}

/// What a call was found to call.
pub open spec fn call_target(s: UnionState, call: Span) -> Option<CallTarget> {
    match latest(s.calls, call) {
        Some(i) => Some(s.calls[i].target),
        None => None,
    }
}

/// A call.
#[verifier::opaque]
pub open spec fn call_typed(
    c: UnionContext,
    s: UnionState,
    call: Span,
    callee: &Expression,
    arguments: Seq<Argument>,
) -> UnionState {
    match call_target(s, call) {
        Some(CallTarget::Callable(CallableId::Function(function))) => if function.0 < c.signatures.len() {
            let signature = c.signatures[function.0 as int];
            changed(
                arguments_checked(c, s, signature.parameters@, arguments, 0, 0),
                call,
                signature.result,
            )
        } else {
            s
        },
        Some(CallTarget::Callable(CallableId::Intrinsic(intrinsic))) => changed(s, call, intrinsic_result(intrinsic)),
        Some(CallTarget::Builtin(_)) => method_typed(c, s, call, callee, arguments),
        Some(CallTarget::Expression) => method_typed(c, s, call, callee, arguments),
        Some(_) => s,
        None => method_typed(c, s, call, callee, arguments),
    }
}

/// One step from a place to a part of it.
#[verifier::opaque]
pub open spec fn path_step(c: UnionContext, s: UnionState, receiver: TypeId, suffix: AssignmentTargetSuffix) -> Option<
    (AccessPathStep, TypeState),
> {
    match (shape_of(s, receiver), suffix.kind) {
        (Some(Shape::List(element)), AssignmentTargetSuffixKind::Index(_)) => {
            let state = TypeState::Resolved(element);
            Some((AccessPathStep::ListIndex { suffix: suffix.span, element, state }, state))
        },
        (Some(Shape::Mapping { key, value }), AssignmentTargetSuffixKind::Index(_)) => {
            let state = TypeState::Resolved(value);
            Some((AccessPathStep::MapIndex { suffix: suffix.span, key, value, state }, state))
        },
        (Some(Shape::Nominal(declaration)), AssignmentTargetSuffixKind::Member(member)) => if declaration.0
            < c.definitions.len() {
            match (c.definitions[declaration.0 as int].kind, member) {
                (TypeDefinitionKind::Struct(members), Member::Named(name)) => match member_named(
                    c.source,
                    members@,
                    text_at(c.source, name.span),
                    0,
                ) {
                    Some(field) => Some(
                        (
                            AccessPathStep::StructMember {
                                suffix: suffix.span,
                                declaration,
                                member: members@[field].node,
                                field: field as usize,
                                storage: members@[field].storage,
                                state: members@[field].ty,
                            },
                            members@[field].ty,
                        ),
                    ),
                    None => None,
                },
                (TypeDefinitionKind::Tuple(members), Member::TupleIndex(span)) => match position_at(c.source, span) {
                    Some(position) => if position < members@.len() {
                        Some(
                            (
                                AccessPathStep::TupleMember {
                                    suffix: suffix.span,
                                    declaration,
                                    member: members@[position as int].node,
                                    position,
                                    state: members@[position as int].ty,
                                },
                                members@[position as int].ty,
                            ),
                        )
                    } else {
                        None
                    },
                    None => None,
                },
                _ => None,
            }
        } else {
            None
        },
        _ => None,
    }
}

/// The steps along the suffixes from one on, as far as their types are known.
pub open spec fn path_from(
    c: UnionContext,
    s: UnionState,
    suffixes: Seq<AssignmentTargetSuffix>,
    from: int,
    state: TypeState,
    steps: Seq<AccessPathStep>,
) -> (TypeState, Seq<AccessPathStep>)
    decreases suffixes.len() - from,
{
    if from < 0 || from >= suffixes.len() {
        (state, steps)
    } else {
        match state {
            TypeState::Resolved(receiver) => match path_step(c, s, receiver, suffixes[from]) {
                Some((step, next)) => path_from(c, s, suffixes, from + 1, next, steps.push(step)),
                None => (state, steps),
            },
            _ => (state, steps),
        }
    }
}

/// The latest annotation of an assignment target among the first `count`.
pub open spec fn target_before(targets: Seq<TargetView>, node: Span, count: int) -> Option<int>
    decreases count,
{
    if count <= 0 {
        None
    } else if targets[count - 1].node == node {
        Some(count - 1)
    } else {
        target_before(targets, node, count - 1)
    }
}

/// The type of a binding where it stands.
#[verifier::opaque]
pub open spec fn root_type(s: UnionState, root: BindingId) -> TypeState {
    match narrowed_to(s.narrowed, root) {
        Some(ty) => TypeState::Resolved(ty),
        None => if root.0 < s.binding_types.len() {
            s.binding_types[root.0 as int].state
        } else {
            TypeState::Error
        },
    }
}

/// A new annotation of an assignment target.
#[verifier::opaque]
pub open spec fn target_noted(s: UnionState, target: TargetView) -> UnionState {
    UnionState {
        deferred: settled(s.deferred, AstNode::AssignmentTarget(target.node)),
        targets: s.targets.push(target),
        ..s
    }
}

/// An assignment target with suffixes.
#[verifier::opaque]
pub open spec fn target_typed(c: UnionContext, s: UnionState, target: &AssignmentTarget) -> UnionState {
    if target.suffixes@.len() == 0 {
        s
    } else {
        match (bound(c, target.root.span), target_before(s.targets, target.span, s.targets.len() as int)) {
            (Some(root), Some(i)) => {
                let (state, steps) = path_from(c, s, target.suffixes@, 0, root_type(s, root), seq![]);
                if state != s.targets[i].state || steps.len() != s.targets[i].steps.len() {
                    target_noted(s, TargetView { node: target.span, root: Some(root), steps, state })
                } else {
                    s
                }
            },
            _ => s,
        }
    }
}

} // verus!
