//! Resolving labels of union alternatives, postfix `?`, calls and assignment targets.

use crate::analysis::{
    AccessPathStep, AlternativeView, Analysis, AssignmentAnnotation, AstNode, BindingId, BuiltinMethod,
    CallResolution, CallTarget, CallableId, IntrinsicId, ParameterSignature, ResolvedType, TypeAnnotation,
    TypeDeclarationId, TypeDefinitionKind, TypeId, TypeState, UnionAlternative, UnionStyle, alternative_payload,
    alternative_views, latest_fact,
};
use crate::ast::{
    Argument, ArgumentKind, AssignmentTarget, AssignmentTargetSuffix, AssignmentTargetSuffixKind, Expression,
    ExpressionKind, Member, PrimitiveType, Type, TypeKind,
};
use crate::lowering::steps::source_text;
use crate::semantic::{TryAction, TryResolution, UnionTestResolution};
use crate::semantic::flow_validator::find_fact;
use crate::semantic::union_labels::{
    argument_checked, argument_type, arguments_checked, bytes_before, call_target, call_typed, comes_before,
    count_errors, first_error, first_tagged, first_untagged, in_rank_order, is_typed, label_alternative,
    label_alternatives, label_noted, label_rule, label_type, method_checked, method_of, method_typed,
    named_type, parameter_named, passed, path_from, path_step, picked, put_among, retargeted, root_type,
    target_before, target_noted, target_typed, test_noted, try_action, try_noted, try_refused, try_success,
    try_typed, type_label, type_named, type_noted, type_settled,
};
use crate::semantic::union_rules::{Home, TryActionView, UnionContext, bare_type, errors_in};
use crate::semantic::union_validator::{UnionValidator, find_member, position, settle};
use crate::source::Span;
use crate::text::same_text;
use vstd::prelude::*;
use vstd::utf8::encode_utf8;

verus! {

/// The contents of an alternative that may be missing.
pub open spec fn alternative_found(alternative: Option<UnionAlternative>) -> Option<AlternativeView> {
    match alternative {
        Some(alternative) => Some(alternative@),
        None => None,
    }
}

pub fn strip_type_parentheses(ty: &Type) -> (result: &Type)
    ensures
        *result == *bare_type(ty),
    decreases ty,
{
    match &ty.kind {
        TypeKind::Parenthesized(inner) => strip_type_parentheses(inner),
        _ => ty,
    }
}

/// The declared type with a name.
pub fn type_by_name(analysis: &Analysis, name: &String) -> (result: Option<TypeDeclarationId>)
    ensures
        result == type_named(analysis.type_names@, name@, 0),
{
    let mut index: usize = 0;
    while index < analysis.type_names.len()
        invariant
            index <= analysis.type_names@.len(),
            type_named(analysis.type_names@, name@, index as int) == type_named(analysis.type_names@, name@, 0),
        decreases analysis.type_names@.len() - index,
    {
        if same_text(analysis.type_names[index].name.as_str(), name.as_str()) {
            return Some(analysis.type_names[index].id);
        }
        index += 1;
    }
    None
}

fn error_alternative(alternatives: &Vec<UnionAlternative>) -> (result: Option<UnionAlternative>)
    ensures
        alternative_found(result) == first_error(alternative_views(alternatives@), 0),
{
    let mut index: usize = 0;
    while index < alternatives.len()
        invariant
            index <= alternatives@.len(),
            first_error(alternative_views(alternatives@), index as int) == first_error(
                alternative_views(alternatives@),
                0,
            ),
        decreases alternatives@.len() - index,
    {
        assert(alternative_views(alternatives@)[index as int] == alternatives@[index as int]@);
        if let UnionAlternative::Error(_) = &alternatives[index] {
            return Some(alternatives[index].duplicate());
        }
        index += 1;
    }
    None
}

fn tagged_alternative(alternatives: &Vec<UnionAlternative>, wanted: &String) -> (result: Option<UnionAlternative>)
    ensures
        alternative_found(result) == first_tagged(alternative_views(alternatives@), wanted@, 0),
{
    let mut index: usize = 0;
    while index < alternatives.len()
        invariant
            index <= alternatives@.len(),
            first_tagged(alternative_views(alternatives@), wanted@, index as int) == first_tagged(
                alternative_views(alternatives@),
                wanted@,
                0,
            ),
        decreases alternatives@.len() - index,
    {
        assert(alternative_views(alternatives@)[index as int] == alternatives@[index as int]@);
        if let UnionAlternative::Tagged { tag, .. } = &alternatives[index] {
            if same_text(tag.as_str(), wanted.as_str()) {
                return Some(alternatives[index].duplicate());
            }
        }
        index += 1;
    }
    None
}

fn untagged_alternative(alternatives: &Vec<UnionAlternative>, wanted: TypeId) -> (result: Option<UnionAlternative>)
    ensures
        alternative_found(result) == first_untagged(alternative_views(alternatives@), wanted, 0),
{
    let mut index: usize = 0;
    while index < alternatives.len()
        invariant
            index <= alternatives@.len(),
            first_untagged(alternative_views(alternatives@), wanted, index as int) == first_untagged(
                alternative_views(alternatives@),
                wanted,
                0,
            ),
        decreases alternatives@.len() - index,
    {
        assert(alternative_views(alternatives@)[index as int] == alternatives@[index as int]@);
        if let UnionAlternative::Untagged(payload) = &alternatives[index] {
            if *payload == wanted {
                return Some(alternatives[index].duplicate());
            }
        }
        index += 1;
    }
    None
}

fn text_before(left: &String, right: &String) -> (result: bool)
    ensures
        result == bytes_before(encode_utf8(left@), encode_utf8(right@), 0),
{
    let left_bytes = left.as_str().as_bytes();
    let right_bytes = right.as_str().as_bytes();
    let mut index: usize = 0;
    while index < right_bytes.len()
        invariant
            index <= right_bytes@.len(),
            left_bytes@ == encode_utf8(left@),
            right_bytes@ == encode_utf8(right@),
            bytes_before(left_bytes@, right_bytes@, index as int) == bytes_before(left_bytes@, right_bytes@, 0),
        decreases right_bytes@.len() - index,
    {
        if index >= left_bytes.len() {
            return true;
        }
        if left_bytes[index] != right_bytes[index] {
            return left_bytes[index] < right_bytes[index];
        }
        index += 1;
    }
    false
}

fn alternative_before(left: &UnionAlternative, right: &UnionAlternative) -> (result: bool)
    ensures
        result == comes_before(left@, right@),
{
    match (left, right) {
        (UnionAlternative::Untagged(left), UnionAlternative::Untagged(right)) => left.0 < right.0,
        (
            UnionAlternative::Tagged { tag: left_tag, payload: left },
            UnionAlternative::Tagged { tag: right_tag, payload: right },
        ) => text_before(left_tag, right_tag) || same_text(left_tag.as_str(), right_tag.as_str()) && left.0 < right.0,
        (UnionAlternative::Error(left), UnionAlternative::Error(right)) => left.0 < right.0,
        (UnionAlternative::Untagged(_), _) => true,
        (UnionAlternative::Tagged { .. }, UnionAlternative::Error(_)) => true,
        _ => false,
    }
}

/// Putting an item in front of a place that it comes before, behind one that it does not.
proof fn lemma_put_among(sorted: Seq<AlternativeView>, item: AlternativeView, place: int)
    requires
        0 <= place <= sorted.len(),
        forall|i: int| place <= i < sorted.len() ==> comes_before(item, #[trigger] sorted[i]),
        place == 0 || !comes_before(item, sorted[place - 1]),
    ensures
        put_among(sorted, item) == sorted.insert(place, item),
    decreases sorted.len(),
{
    if place < sorted.len() {
        lemma_put_among(sorted.drop_last(), item, place);
        assert(sorted.drop_last().insert(place, item).push(sorted.last()) =~= sorted.insert(place, item));
    } else {
        assert(sorted.push(item) =~= sorted.insert(place, item));
    }
}

/// The alternatives in order.
fn sort_alternatives(alternatives: Vec<UnionAlternative>) -> (result: Vec<UnionAlternative>)
    ensures
        alternative_views(result@) == in_rank_order(alternative_views(alternatives@), alternatives@.len() as int),
{
    let mut sorted: Vec<UnionAlternative> = Vec::new();
    assert(alternative_views(sorted@) =~= seq![]);
    let mut index: usize = 0;
    while index < alternatives.len()
        invariant
            index <= alternatives@.len(),
            alternative_views(sorted@) == in_rank_order(alternative_views(alternatives@), index as int),
        decreases alternatives@.len() - index,
    {
        let item = alternatives[index].duplicate();
        let ghost before = alternative_views(sorted@);
        let mut place = sorted.len();
        while place > 0 && alternative_before(&item, &sorted[place - 1])
            invariant
                place <= sorted@.len(),
                before == alternative_views(sorted@),
                forall|i: int| place <= i < sorted@.len() ==> comes_before(item@, #[trigger] before[i]),
            decreases place,
        {
            place -= 1;
        }
        proof {
            lemma_put_among(before, item@, place as int);
        }
        sorted.insert(place, item);
        assert(alternative_views(sorted@) =~= before.insert(place as int, item@));
        index += 1;
    }
    sorted
}

/// Error alternatives, or the others.
fn split_errors(alternatives: &Vec<UnionAlternative>, errors: bool) -> (result: Vec<UnionAlternative>)
    ensures
        alternative_views(result@) == errors_in(
            alternative_views(alternatives@),
            errors,
            alternatives@.len() as int,
        ),
{
    let mut kept: Vec<UnionAlternative> = Vec::new();
    assert(alternative_views(kept@) =~= seq![]);
    let mut index: usize = 0;
    while index < alternatives.len()
        invariant
            index <= alternatives@.len(),
            alternative_views(kept@) == errors_in(alternative_views(alternatives@), errors, index as int),
        decreases alternatives@.len() - index,
    {
        let ghost before = alternative_views(kept@);
        let is_error = match &alternatives[index] {
            UnionAlternative::Error(_) => true,
            _ => false,
        };
        if is_error == errors {
            kept.push(alternatives[index].duplicate());
            assert(alternative_views(kept@) =~= before.push(alternatives@[index as int]@));
        }
        index += 1;
    }
    kept
}

fn matching_errors(alternatives: &Vec<UnionAlternative>, payload: TypeId) -> (result: usize)
    ensures
        result == count_errors(alternative_views(alternatives@), payload, alternatives@.len() as int),
{
    let mut count: usize = 0;
    let mut index: usize = 0;
    while index < alternatives.len()
        invariant
            index <= alternatives@.len(),
            count <= index,
            count == count_errors(alternative_views(alternatives@), payload, index as int),
        decreases alternatives@.len() - index,
    {
        assert(alternative_views(alternatives@)[index as int] == alternatives@[index as int]@);
        if let UnionAlternative::Error(carried) = &alternatives[index] {
            if *carried == payload {
                count += 1;
            }
        }
        index += 1;
    }
    count
}

/// The expression that an argument passes.
pub fn argument_value(argument: &Argument) -> (result: &Expression)
    ensures
        *result == passed(*argument),
{
    match &argument.kind {
        ArgumentKind::Positional(value) => value,
        ArgumentKind::Named { value, .. } => value,
    }
}

fn parameter_by_name(analysis: &Analysis, parameters: &Vec<ParameterSignature>, wanted: &String) -> (result: Option<
    TypeState,
>)
    ensures
        result == parameter_named(analysis.source, parameters@, wanted@, 0),
{
    let mut index: usize = 0;
    while index < parameters.len()
        invariant
            index <= parameters@.len(),
            parameter_named(analysis.source, parameters@, wanted@, index as int) == parameter_named(
                analysis.source,
                parameters@,
                wanted@,
                0,
            ),
        decreases parameters@.len() - index,
    {
        let name = source_text(analysis, parameters[index].node.name.span);
        if same_text(name.as_str(), wanted.as_str()) {
            return Some(parameters[index].ty);
        }
        index += 1;
    }
    None
}

/// The type that an argument is expected to have.
fn expected_argument(
    analysis: &Analysis,
    parameters: &Vec<ParameterSignature>,
    argument: &Argument,
    positional: usize,
) -> (result: Option<
    TypeState,
>)
    ensures
        forall|c: UnionContext| c.source == analysis.source ==> result == #[trigger] argument_type(
            c,
            parameters@,
            *argument,
            positional as int,
        ),
{
    proof {
        reveal(argument_type);
    }
    match &argument.kind {
        ArgumentKind::Positional(_) => if positional < parameters.len() {
            Some(parameters[positional].ty)
        } else {
            None
        },
        ArgumentKind::Named { name, .. } => {
            let wanted = source_text(analysis, name.span);
            parameter_by_name(analysis, parameters, &wanted)
        },
    }
}

impl<'a> UnionValidator<'a> {
    fn note_type(&mut self, node: Span, ty: TypeId)
        requires
            old(self).ready(),
        ensures
            final(self).continues(old(self)),
            final(self)@ == type_noted(old(self)@, node, ty),
    {
        proof {
            reveal(type_noted);
        }
        self.analysis.type_annotations.push(TypeAnnotation { node, state: TypeState::Resolved(ty) });
        assert(self@ =~= type_noted(old(self)@, node, ty));
    }

    fn note_label(&mut self, label: &Type, payload: TypeId)
        requires
            old(self).ready(),
        ensures
            final(self).continues(old(self)),
            final(self)@ == label_noted(old(self)@, label, payload),
        decreases label,
    {
        proof {
            reveal_with_fuel(label_noted, 1);
        }
        self.note_type(label.span, payload);
        if let TypeKind::Parenthesized(inner) = &label.kind {
            self.note_label(inner, payload);
        }
    }

    fn named_label_type(&mut self, name: Span) -> (result: Option<TypeId>)
        requires
            old(self).ready(),
        ensures
            final(self).continues(old(self)),
            (final(self)@, result) == named_type(old(self).context(), old(self)@, name),
    {
        proof {
            reveal(named_type);
        }
        let spelling = source_text(&self.analysis, name);
        match type_by_name(&self.analysis, &spelling) {
            Some(declaration) => Some(self.intern(ResolvedType::Nominal(declaration))),
            None => {
                let message = quoted("unknown type '", &spelling);
                self.object(name, message.as_str());
                None
            },
        }
    }

    fn settle_type(&mut self, node: Span, resolved: Option<TypeId>) -> (result: Option<TypeId>)
        requires
            old(self).ready(),
        ensures
            final(self).continues(old(self)),
            (final(self)@, result) == type_settled(old(self)@, node, resolved),
    {
        proof {
            reveal(type_settled);
        }
        if let Some(ty) = resolved {
            self.note_type(node, ty);
        }
        resolved
    }

    /// A type in the source.
    #[verifier::spinoff_prover]
    fn label_type(&mut self, ty: &Type) -> (result: Option<TypeId>)
        requires
            old(self).ready(),
        ensures
            final(self).continues(old(self)),
            (final(self)@, result) == label_type(old(self).context(), old(self)@, ty),
        decreases ty, 1int,
    {
        proof {
            reveal_with_fuel(label_type, 1);
        }
        let resolved = match &ty.kind {
            TypeKind::Unit => Some(self.analysis.types.unit()),
            TypeKind::Primitive(primitive) => Some(self.analysis.types.primitive(*primitive)),
            TypeKind::Named(identifier) => self.named_label_type(identifier.span),
            TypeKind::List(element) => match self.label_type(element) {
                Some(element) => Some(self.intern(ResolvedType::List(element))),
                None => None,
            },
            TypeKind::Mapping { key, value } => {
                let key = self.label_type(key);
                let value = self.label_type(value);
                match (key, value) {
                    (Some(key), Some(value)) => Some(self.intern(ResolvedType::Mapping { key, value })),
                    _ => None,
                }
            },
            TypeKind::Union(alternatives) => {
                let resolved = self.label_alternatives(alternatives);
                let sorted = sort_alternatives(resolved);
                Some(self.intern(ResolvedType::Union(sorted)))
            },
            TypeKind::Parenthesized(inner) => self.label_type(inner),
            TypeKind::Tagged { .. } => {
                self.object(ty.span, "tagged alternative is only valid within a union type");
                None
            },
        };
        self.settle_type(ty.span, resolved)
    }

    #[verifier::spinoff_prover]
    fn label_alternative(&mut self, alternative: &Type) -> (result: Option<UnionAlternative>)
        requires
            old(self).ready(),
        ensures
            final(self).continues(old(self)),
            (final(self)@, alternative_found(result)) == label_alternative(
                old(self).context(),
                old(self)@,
                alternative,
            ),
        decreases alternative, 2int,
    {
        proof {
            reveal_with_fuel(label_alternative, 1);
        }
        match &alternative.kind {
            TypeKind::Tagged { tag, payload } => match self.label_type(payload) {
                Some(payload) => {
                    let tag = source_text(&self.analysis, tag.span);
                    if same_text(tag.as_str(), "Error") {
                        Some(UnionAlternative::Error(payload))
                    } else {
                        Some(UnionAlternative::Tagged { tag, payload })
                    }
                },
                None => None,
            },
            _ => match self.label_type(alternative) {
                Some(payload) => Some(UnionAlternative::Untagged(payload)),
                None => None,
            },
        }
    }

    #[verifier::spinoff_prover]
    #[verifier::loop_isolation(false)]
    fn label_alternatives(&mut self, alternatives: &Vec<Type>) -> (result: Vec<UnionAlternative>)
        requires
            old(self).ready(),
        ensures
            final(self).continues(old(self)),
            (final(self)@, alternative_views(result@)) == label_alternatives(
                old(self).context(),
                old(self)@,
                alternatives@,
                0,
                seq![],
            ),
        decreases alternatives@, alternatives@.len() + 1,
    {
        proof {
            reveal_with_fuel(label_alternatives, 1);
        }
        let ghost c = self.context();
        let ghost whole = label_alternatives(c, self@, alternatives@, 0, seq![]);
        let mut resolved: Vec<UnionAlternative> = Vec::new();
        assert(alternative_views(resolved@) =~= seq![]);
        let mut index: usize = 0;
        while index < alternatives.len()
            invariant
                index <= alternatives@.len(),
                self.continues(old(self)),
                self.context() == c,
                label_alternatives(c, self@, alternatives@, index as int, alternative_views(resolved@)) == whole,
            decreases alternatives@.len() - index,
        {
            let ghost before = alternative_views(resolved@);
            if let Some(alternative) = self.label_alternative(&alternatives[index]) {
                resolved.push(alternative);
                assert(alternative_views(resolved@) =~= before.push(alternative@));
            }
            index += 1;
        }
        resolved
    }

    fn pick(&mut self, label: &Type, name: Span, selected: Option<UnionAlternative>, message: &str) -> (result: Option<
        UnionAlternative,
    >)
        requires
            old(self).ready(),
        ensures
            final(self).continues(old(self)),
            (final(self)@, alternative_found(result)) == picked(
                old(self).context(),
                old(self)@,
                label,
                name,
                alternative_found(selected),
                message@,
            ),
    {
        proof {
            reveal(picked);
        }
        match selected {
            Some(alternative) => {
                self.note_label(label, alternative_payload(&alternative));
                Some(alternative)
            },
            None => {
                self.object(name, message);
                None
            },
        }
    }

    fn type_label(&mut self, label: &Type, alternatives: &Vec<UnionAlternative>) -> (result: Option<UnionAlternative>)
        requires
            old(self).ready(),
        ensures
            final(self).continues(old(self)),
            (final(self)@, alternative_found(result)) == type_label(
                old(self).context(),
                old(self)@,
                label,
                alternative_views(alternatives@),
            ),
    {
        proof {
            reveal(type_label);
        }
        match self.label_type(label) {
            None => None,
            Some(ty) => match untagged_alternative(alternatives, ty) {
                Some(alternative) => Some(alternative),
                None => {
                    self.object(label.span, "type label is not an alternative of this union");
                    None
                },
            },
        }
    }

    /// The alternative that a label stands for.
    #[verifier::spinoff_prover]
    pub fn resolve_label(
        &mut self,
        label: &Type,
        style: UnionStyle,
        alternatives: &Vec<UnionAlternative>,
    ) -> (result: Option<
        UnionAlternative,
    >)
        requires
            old(self).ready(),
        ensures
            final(self).continues(old(self)),
            (final(self)@, alternative_found(result)) == label_rule(
                old(self).context(),
                old(self)@,
                label,
                style,
                alternative_views(alternatives@),
            ),
    {
        proof {
            reveal(label_rule);
        }
        if let TypeKind::Named(identifier) = &strip_type_parentheses(label).kind {
            let spelling = source_text(&self.analysis, identifier.span);
            let declared = type_by_name(&self.analysis, &spelling).is_some();
            if same_text(spelling.as_str(), "Error") {
                let selected = error_alternative(alternatives);
                return self.pick(label, identifier.span, selected, "union has no Error alternative");
            }
            if style == UnionStyle::Tagged {
                if declared {
                    self.object(identifier.span, "tagged union requires a tag label, not a type label");
                    return None;
                }
                let selected = tagged_alternative(alternatives, &spelling);
                let message = quoted("unknown union tag '", &spelling);
                return self.pick(label, identifier.span, selected, message.as_str());
            }
            if !declared {
                self.object(identifier.span, "untagged union requires a type label, not a tag label");
                return None;
            }
            return self.type_label(label, alternatives);
        }
        if style == UnionStyle::Tagged {
            self.object(label.span, "tagged union requires a bare tag label");
            return None;
        }
        self.type_label(label, alternatives)
    }

    fn refuse_try(&mut self, expression: Span, operator: Span, message: &str)
        requires
            old(self).ready(),
        ensures
            final(self).continues(old(self)),
            final(self)@ == try_refused(old(self).context(), old(self)@, expression, operator, message@),
    {
        proof {
            reveal(try_refused);
        }
        self.object(operator, message);
        self.replace_state(expression, TypeState::Error);
    }

    fn try_action(&self, home: Home, payload: TypeId) -> (result: Result<TryAction, &'static str>)
        ensures
            match result {
                Ok(action) => try_action(self.context(), self@, home, payload) == Ok::<TryActionView, &'static str>(
                    action@,
                ),
                Err(message) => try_action(self.context(), self@, home, payload) == Err::<TryActionView, &'static str>(
                    message,
                ),
            },
    {
        proof {
            reveal(try_action);
        }
        let name = source_text(&self.analysis, home.name);
        if same_text(name.as_str(), "main") {
            return Ok(TryAction::Panic { function: home.function });
        }
        match self.union_parts(home.result) {
            None => Err("enclosing function result must be a union with the same Error payload"),
            Some((destination_union, _, alternatives)) => if matching_errors(&alternatives, payload) == 1 {
                Ok(
                    TryAction::Propagate {
                        function: home.function,
                        destination_union,
                        destination_error: UnionAlternative::Error(payload),
                    },
                )
            } else {
                Err("postfix '?' Error payload does not match the enclosing function result")
            },
        }
    }

    fn try_success(&mut self, alternatives: &Vec<UnionAlternative>) -> (result: TypeId)
        requires
            old(self).ready(),
        ensures
            final(self).continues(old(self)),
            (final(self)@, result) == try_success(old(self)@, alternative_views(alternatives@)),
    {
        proof {
            reveal(try_success);
        }
        let successes = split_errors(alternatives, false);
        if successes.len() == 1 {
            assert(alternative_views(successes@)[0] == successes@[0]@);
            alternative_payload(&successes[0])
        } else {
            self.intern(ResolvedType::Union(successes))
        }
    }

    /// A postfix `?`.
    #[verifier::spinoff_prover]
    pub fn resolve_try(&mut self, home: Home, expression: Span, operator: Span, operand: TypeState)
        requires
            old(self).ready(),
        ensures
            final(self).continues(old(self)),
            final(self)@ == try_typed(old(self).context(), old(self)@, home, expression, operator, operand),
    {
        proof {
            reveal(try_typed);
            reveal(try_noted);
        }
        if operand == TypeState::Never {
            self.replace_if_changed(expression, TypeState::Never);
            return;
        }
        let (operand_union, alternatives) = match self.union_parts(operand) {
            Some((operand_union, _, alternatives)) => (operand_union, alternatives),
            None => {
                if operand == TypeState::Error {
                    self.replace_state(expression, TypeState::Error);
                } else {
                    self.refuse_try(expression, operator, "postfix '?' operand must be a union containing Error");
                }
                return;
            },
        };
        let mut errors = split_errors(&alternatives, true);
        if errors.len() != 1 {
            self.refuse_try(
                expression,
                operator,
                "postfix '?' operand union must contain exactly one direct Error alternative",
            );
            return;
        }
        assert(alternative_views(errors@)[0] == errors@[0]@);
        let success = self.try_success(&alternatives);
        match self.try_action(home, alternative_payload(&errors[0])) {
            Err(message) => self.refuse_try(expression, operator, message),
            Ok(action) => {
                self.replace_state(expression, TypeState::Resolved(success));
                let ghost before = self@;
                let source_error = errors[0].duplicate();
                let fact = TryResolution {
                    expression,
                    operator_span: operator,
                    operand_union,
                    source_error,
                    success,
                    widening: None,
                    action,
                };
                self.tries.push(fact);
                assert(self@ =~= try_noted(before, fact@));
            },
        }
    }

    fn note_test(&mut self, fact: UnionTestResolution)
        requires
            old(self).ready(),
        ensures
            final(self).continues(old(self)),
            final(self)@ == test_noted(old(self)@, fact@),
    {
        proof {
            reveal(test_noted);
        }
        self.tests.push(fact);
        assert(self@ =~= test_noted(old(self)@, fact@));
    }

    /// A union test.
    pub fn type_test(&mut self, expression: Span, value: &Expression, label: &Type)
        requires
            old(self).ready(),
        ensures
            final(self).continues(old(self)),
            final(self)@ == is_typed(old(self).context(), old(self)@, expression, value, label),
    {
        proof {
            reveal(is_typed);
        }
        let state = self.state(value.span);
        let binding = self.exact_binding(value);
        match self.union_parts(state) {
            Some((operand_union, style, alternatives)) => match self.resolve_label(label, style, &alternatives) {
                Some(alternative) => {
                    let payload = alternative_payload(&alternative);
                    self.note_test(
                        UnionTestResolution { expression, operand_union, alternative, payload, binding },
                    );
                    let bool_type = self.analysis.types.primitive(PrimitiveType::Bool);
                    self.replace_state(expression, TypeState::Resolved(bool_type));
                },
                None => self.replace_state(expression, TypeState::Error),
            },
            None => {
                if state != TypeState::Error && state != TypeState::Never {
                    self.object(value.span, "'is' operand must have a union type");
                }
                self.replace_state(expression, TypeState::Error);
            },
        }
    }

    fn check_argument(&mut self, argument: &Argument, expected: Option<TypeState>)
        requires
            old(self).ready(),
        ensures
            final(self).continues(old(self)),
            final(self)@ == argument_checked(old(self).context(), old(self)@, *argument, expected),
    {
        proof {
            reveal(argument_checked);
        }
        if let Some(TypeState::Resolved(expected)) = expected {
            self.validate_expected_value(
                argument_value(argument),
                expected,
                "argument type does not match parameter type",
            );
        }
    }

    #[verifier::spinoff_prover]
    #[verifier::loop_isolation(false)]
    fn check_arguments(&mut self, function: usize, arguments: &Vec<Argument>)
        requires
            old(self).ready(),
            function < old(self).analysis.function_signatures@.len(),
        ensures
            final(self).continues(old(self)),
            final(self)@ == arguments_checked(
                old(self).context(),
                old(self)@,
                old(self).analysis.function_signatures@[function as int].parameters@,
                arguments@,
                0,
                0,
            ),
    {
        proof {
            reveal_with_fuel(arguments_checked, 1);
        }
        let ghost c = self.context();
        let ghost parameters = self.analysis.function_signatures@[function as int].parameters@;
        let ghost whole = arguments_checked(c, self@, parameters, arguments@, 0, 0);
        let mut positional: usize = 0;
        let mut index: usize = 0;
        while index < arguments.len()
            invariant
                index <= arguments@.len(),
                positional <= index,
                self.continues(old(self)),
                self.context() == c,
                arguments_checked(c, self@, parameters, arguments@, index as int, positional as int) == whole,
            decreases arguments@.len() - index,
        {
            let expected = expected_argument(
                &self.analysis,
                &self.analysis.function_signatures[function].parameters,
                &arguments[index],
                positional,
            );
            assert(expected == argument_type(c, parameters, arguments@[index as int], positional as int));
            self.check_argument(&arguments[index], expected);
            if let ArgumentKind::Positional(_) = &arguments[index].kind {
                positional += 1;
            }
            index += 1;
        }
    }

    fn builtin_method(&self, receiver: TypeId, name: &String) -> (result: Option<
        (BuiltinMethod, Option<TypeId>, TypeState),
    >)
        ensures
            result == method_of(self@, receiver, name@),
    {
        proof {
            reveal(method_of);
        }
        let unit = TypeState::Resolved(self.analysis.types.unit());
        let int_type = self.analysis.types.primitive(PrimitiveType::Int);
        let name = name.as_str();
        match self.shape(receiver) {
            Some(ResolvedType::List(element)) => if same_text(name, "append") {
                Some((BuiltinMethod::ListAppend, Some(*element), unit))
            } else if same_text(name, "removeIndex") {
                Some((BuiltinMethod::ListRemoveIndex, Some(int_type), unit))
            } else if same_text(name, "len") {
                Some((BuiltinMethod::ListLen, None, TypeState::Resolved(int_type)))
            } else {
                None
            },
            Some(ResolvedType::Mapping { key, .. }) => if same_text(name, "removeKey") {
                Some((BuiltinMethod::MapRemoveKey, Some(*key), unit))
            } else if same_text(name, "len") {
                Some((BuiltinMethod::MapLen, None, TypeState::Resolved(int_type)))
            } else {
                None
            },
            Some(ResolvedType::Primitive(PrimitiveType::Str)) => if same_text(name, "len") {
                Some((BuiltinMethod::StrLen, None, TypeState::Resolved(int_type)))
            } else {
                None
            },
            _ => None,
        }
    }

    fn retarget(&mut self, call: Span, method: BuiltinMethod)
        requires
            old(self).ready(),
        ensures
            final(self).continues(old(self)),
            final(self)@ == retargeted(old(self)@, call, method),
    {
        proof {
            reveal(retargeted);
        }
        if let Some(index) = find_fact(&self.analysis.calls, call) {
            let record = self.analysis.calls[index];
            self.analysis.calls.set(index, CallResolution { target: CallTarget::Builtin(method), ..record });
        }
        assert(self@ =~= retargeted(old(self)@, call, method));
    }

    fn check_method_argument(&mut self, expected: Option<TypeId>, arguments: &Vec<Argument>)
        requires
            old(self).ready(),
        ensures
            final(self).continues(old(self)),
            final(self)@ == method_checked(old(self).context(), old(self)@, expected, arguments@),
    {
        proof {
            reveal(method_checked);
        }
        if let Some(expected) = expected {
            if arguments.len() > 0 {
                self.validate_expected_value(
                    argument_value(&arguments[0]),
                    expected,
                    "method argument type does not match the narrowed receiver type",
                );
            }
        }
    }

    fn type_method(&mut self, call: Span, callee: &Expression, arguments: &Vec<Argument>)
        requires
            old(self).ready(),
        ensures
            final(self).continues(old(self)),
            final(self)@ == method_typed(old(self).context(), old(self)@, call, callee, arguments@),
    {
        proof {
            reveal(method_typed);
        }
        if let ExpressionKind::Member { value, member } = &callee.kind {
            if let (TypeState::Resolved(receiver), Member::Named(name)) = (self.state(value.span), member) {
                let spelling = source_text(&self.analysis, name.span);
                match self.builtin_method(receiver, &spelling) {
                    Some((method, expected, result)) => {
                        self.check_method_argument(expected, arguments);
                        self.retarget(call, method);
                        self.replace_if_changed(call, result);
                    },
                    None => self.refuse_if_open(call, "method is not available on the narrowed alternative"),
                }
            }
        }
    }

    pub fn target_of(&self, call: Span) -> (result: Option<CallTarget>)
        ensures
            result == call_target(self@, call),
    {
        match latest_fact(&self.analysis.calls, call) {
            Some(index) => Some(self.analysis.calls[index].target),
            None => None,
        }
    }

    /// A call.
    pub fn type_call(&mut self, call: Span, callee: &Expression, arguments: &Vec<Argument>)
        requires
            old(self).ready(),
        ensures
            final(self).continues(old(self)),
            final(self)@ == call_typed(old(self).context(), old(self)@, call, callee, arguments@),
    {
        proof {
            reveal(call_typed);
        }
        match self.target_of(call) {
            Some(CallTarget::Callable(CallableId::Function(function))) => {
                if function.0 < self.analysis.function_signatures.len() {
                    let result = self.analysis.function_signatures[function.0].result;
                    self.check_arguments(function.0, arguments);
                    self.replace_if_changed(call, result);
                }
            },
            Some(CallTarget::Callable(CallableId::Intrinsic(intrinsic))) => {
                let result = match intrinsic {
                    IntrinsicId::Print | IntrinsicId::Println => TypeState::Resolved(self.analysis.types.unit()),
                    IntrinsicId::Panic => TypeState::Never,
                };
                self.replace_if_changed(call, result);
            },
            Some(CallTarget::Builtin(_)) => self.type_method(call, callee, arguments),
            Some(CallTarget::Expression) => self.type_method(call, callee, arguments),
            Some(_) => {},
            None => self.type_method(call, callee, arguments),
        }
    }

    #[verifier::spinoff_prover]
    fn path_step(
        &self,
        receiver: TypeId,
        suffix: &AssignmentTargetSuffix,
    ) -> (result: Option<(AccessPathStep, TypeState)>)
        ensures
            result == path_step(self.context(), self@, receiver, *suffix),
    {
        proof {
            reveal(path_step);
        }
        match (self.shape(receiver), &suffix.kind) {
            (Some(ResolvedType::List(element)), AssignmentTargetSuffixKind::Index(_)) => {
                let state = TypeState::Resolved(*element);
                Some((AccessPathStep::ListIndex { suffix: suffix.span, element: *element, state }, state))
            },
            (Some(ResolvedType::Mapping { key, value }), AssignmentTargetSuffixKind::Index(_)) => {
                let state = TypeState::Resolved(*value);
                Some((AccessPathStep::MapIndex { suffix: suffix.span, key: *key, value: *value, state }, state))
            },
            (Some(ResolvedType::Nominal(declaration)), AssignmentTargetSuffixKind::Member(member)) => {
                let declaration = *declaration;
                if declaration.0 >= self.analysis.type_definitions.len() {
                    return None;
                }
                match (&self.analysis.type_definitions[declaration.0].kind, member) {
                    (TypeDefinitionKind::Struct(members), Member::Named(name)) => {
                        let wanted = source_text(&self.analysis, name.span);
                        match find_member(&self.analysis, members, &wanted) {
                            Some(field) => Some(
                                (
                                    AccessPathStep::StructMember {
                                        suffix: suffix.span,
                                        declaration,
                                        member: members[field].node,
                                        field,
                                        storage: members[field].storage,
                                        state: members[field].ty,
                                    },
                                    members[field].ty,
                                ),
                            ),
                            None => None,
                        }
                    },
                    (TypeDefinitionKind::Tuple(members), Member::TupleIndex(span)) => match position(
                        &self.analysis,
                        *span,
                    ) {
                        Some(position) => if position < members.len() {
                            Some(
                                (
                                    AccessPathStep::TupleMember {
                                        suffix: suffix.span,
                                        declaration,
                                        member: members[position].node,
                                        position,
                                        state: members[position].ty,
                                    },
                                    members[position].ty,
                                ),
                            )
                        } else {
                            None
                        },
                        None => None,
                    },
                    _ => None,
                }
            },
            _ => None,
        }
    }

    fn path(
        &self,
        suffixes: &Vec<AssignmentTargetSuffix>,
        root: TypeState,
    ) -> (result: (TypeState, Vec<AccessPathStep>))
        ensures
            (result.0, result.1@) == path_from(self.context(), self@, suffixes@, 0, root, seq![]),
    {
        let mut state = root;
        let mut steps: Vec<AccessPathStep> = Vec::new();
        assert(steps@ =~= seq![]);
        let mut index: usize = 0;
        while index < suffixes.len()
            invariant
                index <= suffixes@.len(),
                path_from(self.context(), self@, suffixes@, index as int, state, steps@) == path_from(
                    self.context(),
                    self@,
                    suffixes@,
                    0,
                    root,
                    seq![],
                ),
            decreases suffixes@.len() - index,
        {
            let receiver = match state {
                TypeState::Resolved(receiver) => receiver,
                _ => return (state, steps),
            };
            match self.path_step(receiver, &suffixes[index]) {
                Some((step, next)) => {
                    steps.push(step);
                    state = next;
                },
                None => return (state, steps),
            }
            index += 1;
        }
        (state, steps)
    }

    fn root_type(&self, root: BindingId) -> (result: TypeState)
        ensures
            result == root_type(self@, root),
    {
        proof {
            reveal(root_type);
        }
        match self.narrowed_type(root) {
            Some(ty) => TypeState::Resolved(ty),
            None => if root.0 < self.analysis.binding_types.len() {
                self.analysis.binding_types[root.0].state
            } else {
                TypeState::Error
            },
        }
    }

    fn find_target(&self, node: Span) -> (result: Option<usize>)
        ensures
            match result {
                Some(index) => index < self@.targets.len() && target_before(
                    self@.targets,
                    node,
                    self@.targets.len() as int,
                ) == Some(index as int),
                None => target_before(self@.targets, node, self@.targets.len() as int) is None,
            },
    {
        let mut count = self.analysis.assignment_targets.len();
        while count > 0
            invariant
                count <= self.analysis.assignment_targets@.len(),
                target_before(self@.targets, node, count as int) == target_before(
                    self@.targets,
                    node,
                    self@.targets.len() as int,
                ),
            decreases count,
        {
            assert(self@.targets[count - 1] == self.analysis.assignment_targets@[count - 1]@);
            if self.analysis.assignment_targets[count - 1].node == node {
                return Some(count - 1);
            }
            count -= 1;
        }
        None
    }

    /// An assignment target with suffixes.
    pub fn type_target(&mut self, target: &AssignmentTarget)
        requires
            old(self).ready(),
        ensures
            final(self).continues(old(self)),
            final(self)@ == target_typed(old(self).context(), old(self)@, target),
    {
        proof {
            reveal(target_typed);
            reveal(target_noted);
        }
        if target.suffixes.len() == 0 {
            return;
        }
        if let (Some(root), Some(index)) = (self.bound(target.root.span), self.find_target(target.span)) {
            let root_type = self.root_type(root);
            let (state, steps) = self.path(&target.suffixes, root_type);
            let ghost expected = target_typed(self.context(), self@, target);
            assert(self@.targets[index as int] == self.analysis.assignment_targets@[index as int]@);
            let original = &self.analysis.assignment_targets[index];
            if state != original.state || steps.len() != original.steps.len() {
                let ghost before = self@;
                settle(&mut self.analysis.deferred, AstNode::AssignmentTarget(target.span));
                let annotation = AssignmentAnnotation { node: target.span, root: Some(root), steps, state };
                self.analysis.assignment_targets.push(annotation);
                assert(self@ =~= target_noted(before, annotation@));
            }
        }
    }
}

/// A name behind the start of a message, with a closing quote.
fn quoted(start: &str, name: &String) -> (result: String)
    ensures
        result@ == start@ + name@ + "'"@,
{
    let mut message = String::new();
    message.append(start);
    message.append(name.as_str());
    message.append("'");
    assert(message@ =~= start@ + name@ + "'"@);
    message
}

} // verus!
