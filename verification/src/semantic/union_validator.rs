//! The state of resolving union syntax, and the steps that change it.

use crate::analysis::{
    Analysis, AssignmentAnnotation, AstNode, BindingId, DeferredRecord, ExpressionAnnotation, NameResolution,
    ProjectionKind, ProjectionResolution, ResolvedType, StructMember, TypeDefinitionKind, TypeId, TypeState,
    UnionAlternative, UnionInjection, UnionStyle, alternative_payload, alternative_views, latest_fact,
};
use crate::ast::{
    BinaryOperator, Block, Expression, ExpressionBody, ExpressionBodyKind, ExpressionKind, MapEntry, Member,
    PrimitiveType, UnaryOperator,
};
use crate::diagnostic::{Diagnostic, Diagnostics, Warnings};
use crate::lowering::rules::text_at;
use crate::lowering::steps::source_text;
use crate::semantic::{SwitchArmResolution, SwitchResolution, TryAction, TryResolution, UnionTestResolution};
use crate::semantic::union_rules::{
    ArmFact, Home, InjectionView, Shape, SwitchFact, TargetView, TestFact, TryActionView, TryFact, UnionContext,
    UnionState, bare, binary_typed, block_value, body_value, bound, carrying, cautioned, changed, choice_typed,
    entries_have, exact, expected_value, first_resolved, index_typed, indexed, injected, interned, known,
    list_typed, mapping_typed, member_named, member_of, member_typed, name_typed, narrowed_by, narrowed_to,
    number_in, objected, parts, position_at, projected, result_value, retyped, settled, shape_from, shape_of,
    statement_settled, style_of, test_before, tested, try_at, try_widened, unary_typed, unsupported,
    where_holds, widened, widened_from, widens, with_narrowed, without,
};
use crate::source::Span;
use crate::text::same_text;
use vstd::prelude::*;
use vstd::utf8::encode_utf8;

verus! {

impl AssignmentAnnotation {
    pub open spec fn view(&self) -> TargetView {
        TargetView { node: self.node, root: self.root, steps: self.steps@, state: self.state }
    }
}

impl UnionInjection {
    pub open spec fn view(&self) -> InjectionView {
        InjectionView { node: self.node, union_type: self.union_type, alternative: self.alternative@ }
    }
}

impl UnionTestResolution {
    pub open spec fn view(&self) -> TestFact {
        TestFact {
            expression: self.expression,
            operand_union: self.operand_union,
            alternative: self.alternative@,
            payload: self.payload,
            binding: self.binding,
        }
    }
}

impl SwitchArmResolution {
    pub open spec fn view(&self) -> ArmFact {
        ArmFact { arm: self.arm, alternative: self.alternative@, payload: self.payload }
    }
}

pub open spec fn arm_facts(arms: Seq<SwitchArmResolution>) -> Seq<ArmFact> {
    Seq::new(arms.len(), |i: int| arms[i]@)
}

impl SwitchResolution {
    pub open spec fn view(&self) -> SwitchFact {
        SwitchFact {
            statement: self.statement,
            operand_union: self.operand_union,
            binding: self.binding,
            arms: arm_facts(self.arms@),
            covered: alternative_views(self.covered@),
            else_body: self.else_body,
            exhaustive: self.exhaustive,
        }
    }
}

impl TryAction {
    pub open spec fn view(&self) -> TryActionView {
        match self {
            TryAction::Propagate { function, destination_union, destination_error } => TryActionView::Propagate {
                function: *function,
                destination_union: *destination_union,
                destination_error: destination_error@,
            },
            TryAction::Panic { function } => TryActionView::Panic { function: *function },
        }
    }
}

impl TryResolution {
    pub open spec fn view(&self) -> TryFact {
        TryFact {
            expression: self.expression,
            operator_span: self.operator_span,
            operand_union: self.operand_union,
            source_error: self.source_error@,
            success: self.success,
            widening: self.widening,
            action: self.action@,
        }
    }
}

pub open spec fn shapes(types: Seq<ResolvedType>) -> Seq<Shape> {
    Seq::new(types.len(), |i: int| types[i]@)
}

pub open spec fn target_views(targets: Seq<AssignmentAnnotation>) -> Seq<TargetView> {
    Seq::new(targets.len(), |i: int| targets[i]@)
}

pub open spec fn injection_views(injections: Seq<UnionInjection>) -> Seq<InjectionView> {
    Seq::new(injections.len(), |i: int| injections[i]@)
}

pub open spec fn test_facts(tests: Seq<UnionTestResolution>) -> Seq<TestFact> {
    Seq::new(tests.len(), |i: int| tests[i]@)
}

pub open spec fn switch_facts(switches: Seq<SwitchResolution>) -> Seq<SwitchFact> {
    Seq::new(switches.len(), |i: int| switches[i]@)
}

pub open spec fn try_facts(tries: Seq<TryResolution>) -> Seq<TryFact> {
    Seq::new(tries.len(), |i: int| tries[i]@)
}

/// What resolving union syntax depends on.
pub open spec fn union_context<'a>(analysis: &Analysis<'a>) -> UnionContext<'a> {
    UnionContext {
        source: analysis.source,
        definitions: analysis.type_definitions@,
        signatures: analysis.function_signatures@,
        type_names: analysis.type_names@,
        bindings: analysis.bindings@,
        names: analysis.name_uses@,
    }
}

/// Union syntax as far as it has been resolved.
#[derive(Debug)]
pub struct UnionValidator<'a> {
    pub analysis: Analysis<'a>,
    pub diagnostics: Diagnostics,
    pub warnings: Warnings,
    pub tests: Vec<UnionTestResolution>,
    pub switches: Vec<SwitchResolution>,
    pub tries: Vec<TryResolution>,
    pub narrowed: Vec<(BindingId, TypeId)>,
}

impl<'a> UnionValidator<'a> {
    pub open spec fn view(&self) -> UnionState {
        UnionState {
            types: shapes(self.analysis.types.entries@),
            annotations: self.analysis.expression_annotations@,
            type_annotations: self.analysis.type_annotations@,
            binding_types: self.analysis.binding_types@,
            deferred: self.analysis.deferred@,
            targets: target_views(self.analysis.assignment_targets@),
            projections: self.analysis.projections@,
            calls: self.analysis.calls@,
            injection_subjects: injection_views(self.analysis.union_injection_subjects@),
            injections: injection_views(self.analysis.union_injections@),
            diagnostics: self.diagnostics@,
            warnings: self.warnings@,
            tests: test_facts(self.tests@),
            switches: switch_facts(self.switches@),
            tries: try_facts(self.tries@),
            narrowed: self.narrowed@,
        }
    }

    pub open spec fn context(&self) -> UnionContext<'a> {
        union_context(&self.analysis)
    }

    pub open spec fn ready(&self) -> bool {
        self.analysis.source.wf() && self.diagnostics.wf() && self.warnings.wf()
    }

    /// Only what the resolution of union syntax changes has changed.
    pub open spec fn continues(&self, before: &Self) -> bool {
        &&& self.ready()
        &&& self.diagnostics@.len() >= before.diagnostics@.len()
        &&& self.analysis == Analysis {
            types: self.analysis.types,
            expression_annotations: self.analysis.expression_annotations,
            type_annotations: self.analysis.type_annotations,
            binding_types: self.analysis.binding_types,
            deferred: self.analysis.deferred,
            assignment_targets: self.analysis.assignment_targets,
            projections: self.analysis.projections,
            calls: self.analysis.calls,
            union_injection_subjects: self.analysis.union_injection_subjects,
            union_injections: self.analysis.union_injections,
            ..before.analysis
        }
    }

    pub fn state(&self, expression: Span) -> (result: TypeState)
        ensures
            result == known(self@, expression),
    {
        proof {
            reveal(known);
        }
        match latest_fact(&self.analysis.expression_annotations, expression) {
            Some(index) => self.analysis.expression_annotations[index].state,
            None => TypeState::Error,
        }
    }

    pub fn replace_state(&mut self, expression: Span, state: TypeState)
        requires
            old(self).ready(),
        ensures
            final(self).continues(old(self)),
            final(self)@ == retyped(old(self)@, expression, state),
    {
        proof {
            reveal(retyped);
        }
        settle(&mut self.analysis.deferred, AstNode::Expression(expression));
        self.analysis.expression_annotations.push(ExpressionAnnotation { node: expression, state });
        assert(self@ =~= retyped(old(self)@, expression, state));
    }

    pub fn replace_if_changed(&mut self, expression: Span, state: TypeState)
        requires
            old(self).ready(),
        ensures
            final(self).continues(old(self)),
            final(self)@ == changed(old(self)@, expression, state),
    {
        proof {
            reveal(changed);
        }
        if self.state(expression) != state {
            self.replace_state(expression, state);
        }
    }

    pub fn settle_statement(&mut self, statement: Span)
        requires
            old(self).ready(),
        ensures
            final(self).continues(old(self)),
            final(self)@ == statement_settled(old(self)@, statement),
    {
        proof {
            reveal(statement_settled);
        }
        settle(&mut self.analysis.deferred, AstNode::Statement(statement));
        assert(self@ =~= statement_settled(old(self)@, statement));
    }

    pub fn object(&mut self, span: Span, message: &str)
        requires
            old(self).ready(),
        ensures
            final(self).continues(old(self)),
            final(self)@ == objected(old(self).context(), old(self)@, span, message@),
    {
        proof {
            reveal(objected);
        }
        self.diagnostics.push(Diagnostic::source(self.analysis.source, span, message));
        assert(self@ =~= objected(old(self).context(), old(self)@, span, message@));
    }

    pub fn caution(&mut self, span: Span)
        requires
            old(self).ready(),
        ensures
            final(self).continues(old(self)),
            final(self)@ == cautioned(old(self).context(), old(self)@, span),
    {
        proof {
            reveal(cautioned);
        }
        self.warnings.push(Diagnostic::source_warning(self.analysis.source, span, "unreachable source"));
        assert(self@ =~= cautioned(old(self).context(), old(self)@, span));
    }

    pub fn refuse_if_open(&mut self, expression: Span, message: &str)
        requires
            old(self).ready(),
        ensures
            final(self).continues(old(self)),
            final(self)@ == unsupported(old(self).context(), old(self)@, expression, message@),
    {
        proof {
            reveal(unsupported);
        }
        if let TypeState::Deferred(_) = self.state(expression) {
            self.object(expression, message);
            self.replace_state(expression, TypeState::Error);
        }
    }

    /// The identity of a type, which is listed if it is new.
    #[verifier::loop_isolation(false)]
    pub fn intern(&mut self, ty: ResolvedType) -> (result: TypeId)
        requires
            old(self).ready(),
        ensures
            final(self).continues(old(self)),
            (final(self)@, result) == interned(old(self)@, ty@),
    {
        proof {
            reveal(interned);
        }
        let mut index: usize = 0;
        while index < self.analysis.types.entries.len()
            invariant
                index <= self.analysis.types.entries@.len(),
                shape_from(self@.types, ty@, index as int) == shape_from(self@.types, ty@, 0),
            decreases self.analysis.types.entries@.len() - index,
        {
            if same_type(&self.analysis.types.entries[index], &ty) {
                return TypeId(index);
            }
            index += 1;
        }
        let id = TypeId(self.analysis.types.entries.len());
        self.analysis.types.entries.push(ty);
        assert(self@ =~= interned(old(self)@, ty@).0);
        id
    }

    pub fn shape(&self, ty: TypeId) -> (result: Option<&ResolvedType>)
        ensures
            match result {
                Some(shape) => shape_of(self@, ty) == Some(shape@),
                None => shape_of(self@, ty) is None,
            },
    {
        if ty.0 < self.analysis.types.entries.len() {
            Some(&self.analysis.types.entries[ty.0])
        } else {
            None
        }
    }

    /// The parts of a type that is a union.
    pub fn union_parts(&self, state: TypeState) -> (result: Option<(TypeId, UnionStyle, Vec<UnionAlternative>)>)
        ensures
            match result {
                Some((ty, style, alternatives)) => parts(self.context(), self@, state) == Some(
                    (ty, style, alternative_views(alternatives@)),
                ),
                None => parts(self.context(), self@, state) is None,
            },
    {
        proof {
            reveal(parts);
        }
        let ty = match state {
            TypeState::Resolved(ty) => ty,
            _ => return None,
        };
        match self.shape(ty) {
            Some(ResolvedType::Union(alternatives)) => {
                let copy = copy_alternatives(alternatives);
                let style = union_style(&copy);
                Some((ty, style, copy))
            },
            Some(ResolvedType::Nominal(declaration)) => {
                if declaration.0 >= self.analysis.type_definitions.len() {
                    return None;
                }
                match &self.analysis.type_definitions[declaration.0].kind {
                    TypeDefinitionKind::Union { style, alternatives } => {
                        let copy = copy_alternatives(alternatives);
                        Some((ty, *style, copy))
                    },
                    _ => None,
                }
            },
            _ => None,
        }
    }

    /// The binding that a name stands for.
    pub fn bound(&self, name: Span) -> (result: Option<BindingId>)
        ensures
            result == bound(self.context(), name),
    {
        proof {
            reveal(bound);
        }
        match latest_fact(&self.analysis.name_uses, name) {
            Some(index) => match self.analysis.name_uses[index].resolution {
                NameResolution::Binding(binding) => Some(binding),
                _ => None,
            },
            None => None,
        }
    }

    /// The binding that an expression is just the name of.
    pub fn exact_binding(&self, e: &Expression) -> (result: Option<BindingId>)
        ensures
            result == exact(self.context(), e),
    {
        proof {
            reveal(exact);
        }
        match &strip_expression_parentheses(e).kind {
            ExpressionKind::Identifier(identifier) => self.bound(identifier.span),
            _ => None,
        }
    }

    /// The type that a binding is narrowed to.
    pub fn narrowed_type(&self, binding: BindingId) -> (result: Option<TypeId>)
        ensures
            result == narrowed_to(self@.narrowed, binding),
    {
        let mut count = self.narrowed.len();
        assert(self.narrowed@.subrange(0, count as int) =~= self.narrowed@);
        while count > 0
            invariant
                count <= self.narrowed@.len(),
                narrowed_to(self.narrowed@.subrange(0, count as int), binding) == narrowed_to(self.narrowed@, binding),
            decreases count,
        {
            assert(self.narrowed@.subrange(0, count as int).drop_last() =~= self.narrowed@.subrange(0, count - 1));
            if self.narrowed[count - 1].0 == binding {
                return Some(self.narrowed[count - 1].1);
            }
            count -= 1;
        }
        None
    }

    pub fn remove_narrowing(&mut self, binding: BindingId)
        requires
            old(self).ready(),
        ensures
            final(self).continues(old(self)),
            final(self)@ == widened(old(self)@, binding),
    {
        proof {
            reveal(widened);
        }
        let kept = other_narrowings(&self.narrowed, binding);
        self.narrowed = kept;
        assert(self@ =~= widened(old(self)@, binding));
    }

    pub fn set_narrowing(&mut self, binding: BindingId, ty: TypeId)
        requires
            old(self).ready(),
        ensures
            final(self).continues(old(self)),
            final(self)@ == narrowed_by(old(self)@, binding, ty),
    {
        proof {
            reveal(narrowed_by);
        }
        let mut kept = other_narrowings(&self.narrowed, binding);
        kept.push((binding, ty));
        self.narrowed = kept;
        assert(self@ =~= narrowed_by(old(self)@, binding, ty));
    }

    pub fn restore_narrowings(&mut self, narrowed: &Vec<(BindingId, TypeId)>)
        requires
            old(self).ready(),
        ensures
            final(self).continues(old(self)),
            final(self)@ == with_narrowed(old(self)@, narrowed@),
    {
        proof {
            reveal(with_narrowed);
        }
        self.narrowed = copy_narrowings(narrowed);
        assert(self@ =~= with_narrowed(old(self)@, narrowed@));
    }

    pub fn narrowings(&self) -> (result: Vec<(BindingId, TypeId)>)
        ensures
            result@ == self@.narrowed,
    {
        copy_narrowings(&self.narrowed)
    }

    #[verifier::loop_isolation(false)]
    pub fn remove_narrowings(&mut self, bindings: &Vec<BindingId>)
        requires
            old(self).ready(),
        ensures
            final(self).continues(old(self)),
            final(self)@ == widened_from(old(self)@, bindings@, 0),
    {
        let mut index: usize = 0;
        while index < bindings.len()
            invariant
                index <= bindings@.len(),
                self.continues(old(self)),
                widened_from(self@, bindings@, index as int) == widened_from(old(self)@, bindings@, 0),
            decreases bindings@.len() - index,
        {
            self.remove_narrowing(bindings[index]);
            index += 1;
        }
    }

    /// What a condition says of a binding where it holds.
    pub fn direct_test(&self, condition: &Expression) -> (result: Option<(BindingId, TypeId)>)
        ensures
            result == tested(self@, condition),
    {
        proof {
            reveal(tested);
        }
        let span = strip_expression_parentheses(condition).span;
        let mut count = self.tests.len();
        while count > 0
            invariant
                count <= self.tests@.len(),
                span == bare(condition).span,
                test_before(self@.tests, span, count as int) == test_before(
                    self@.tests,
                    span,
                    self@.tests.len() as int,
                ),
            ensures
                count == 0,
            decreases count,
        {
            proof {
                reveal(tested);
                assert(self@.tests[count - 1] == self.tests@[count - 1]@);
            }
            if self.tests[count - 1].expression == span {
                return match self.tests[count - 1].binding {
                    Some(binding) => Some((binding, self.tests[count - 1].payload)),
                    None => None,
                };
            }
            count -= 1;
        }
        None
    }

    pub fn narrow_where(&mut self, condition: &Expression)
        requires
            old(self).ready(),
        ensures
            final(self).continues(old(self)),
            final(self)@ == where_holds(old(self)@, condition),
    {
        proof {
            reveal(where_holds);
        }
        if let Some((binding, payload)) = self.direct_test(condition) {
            self.set_narrowing(binding, payload);
        }
    }

    pub fn record_injection(&mut self, value: Span, union_type: TypeId, alternative: &UnionAlternative)
        requires
            old(self).ready(),
        ensures
            final(self).continues(old(self)),
            final(self)@ == injected(old(self)@, value, union_type, alternative@),
    {
        proof {
            reveal(injected);
        }
        self.analysis.union_injection_subjects.push(
            UnionInjection { node: value, union_type, alternative: alternative.duplicate() },
        );
        self.analysis.union_injections.push(
            UnionInjection { node: value, union_type, alternative: alternative.duplicate() },
        );
        assert(self@ =~= injected(old(self)@, value, union_type, alternative@));
    }

    /// Whether the success of a postfix `?` is part of a wider union.
    pub fn try_success_widens_to(&self, value: &Expression, actual: TypeId, expected: TypeId) -> (result: bool)
        ensures
            result == widens(self.context(), self@, value, actual, expected),
    {
        proof {
            reveal(widens);
        }
        match &strip_expression_parentheses(value).kind {
            ExpressionKind::Try { .. } => {},
            _ => return false,
        }
        let alternatives = match self.shape(actual) {
            Some(ResolvedType::Union(alternatives)) => alternatives,
            _ => return false,
        };
        let wider = match self.union_parts(TypeState::Resolved(expected)) {
            Some((_, _, wider)) => wider,
            None => return false,
        };
        alternatives.len() > 0 && all_among(alternatives, &wider)
    }

    /// Puts the success of a postfix `?` into a wider union.
    fn widen_try(&mut self, expression: Span, ty: TypeId)
        requires
            old(self).ready(),
        ensures
            final(self).continues(old(self)),
            final(self)@ == try_widened(old(self)@, expression, ty),
    {
        proof {
            reveal(try_widened);
        }
        let mut index: usize = 0;
        while index < self.tries.len()
            invariant
                *self == *old(self),
                self.ready(),
                index <= self.tries@.len(),
                try_at(self@.tries, expression, index as int) == try_at(self@.tries, expression, 0),
            decreases self.tries@.len() - index,
        {
            proof {
                reveal(try_widened);
                assert(self@.tries[index as int] == self.tries@[index as int]@);
            }
            if self.tries[index].expression == expression {
                self.tries[index].widening = Some(ty);
                assert(self@ =~= try_widened(old(self)@, expression, ty));
                return;
            }
            index += 1;
        }
    }

    /// A value is where another type is expected.
    pub fn validate_expected_value(&mut self, value: &Expression, expected: TypeId, message: &str)
        requires
            old(self).ready(),
        ensures
            final(self).continues(old(self)),
            final(self)@ == expected_value(old(self).context(), old(self)@, value, expected, message@),
    {
        proof {
            reveal(expected_value);
        }
        let actual = match self.state(value.span) {
            TypeState::Resolved(actual) => actual,
            _ => return,
        };
        if actual == expected {
            return;
        }
        if self.try_success_widens_to(value, actual, expected) {
            self.widen_try(strip_expression_parentheses(value).span, expected);
            return;
        }
        let fitting = match self.union_parts(TypeState::Resolved(expected)) {
            Some((_, _, alternatives)) => alternatives_carrying(&alternatives, actual),
            None => {
                let none: Vec<UnionAlternative> = Vec::new();
                assert(alternative_views(none@) =~= seq![]);
                none
            },
        };
        if fitting.len() == 1 {
            self.record_injection(value.span, expected, &fitting[0]);
        } else {
            self.object(value.span, message);
        }
    }

    /// A value is returned.
    pub fn validate_result_value(&mut self, home: Home, value: &Expression)
        requires
            old(self).ready(),
        ensures
            final(self).continues(old(self)),
            final(self)@ == result_value(old(self).context(), old(self)@, home, value),
    {
        proof {
            reveal(result_value);
        }
        if let TypeState::Resolved(expected) = home.result {
            let message = if expected == self.analysis.types.unit() {
                "unit-returning function cannot return a non-unit value"
            } else {
                "return value type does not match function result type"
            };
            self.validate_expected_value(value, expected, message);
        }
    }

    pub fn type_name_use(&mut self, expression: Span, name: Span)
        requires
            old(self).ready(),
        ensures
            final(self).continues(old(self)),
            final(self)@ == name_typed(old(self).context(), old(self)@, expression, name),
    {
        proof {
            reveal(name_typed);
        }
        if let Some(binding) = self.bound(name) {
            if let Some(ty) = self.narrowed_type(binding) {
                self.replace_state(expression, TypeState::Resolved(ty));
            }
        }
    }

    pub fn type_unary(&mut self, expression: Span, operator: UnaryOperator, operand: TypeState)
        requires
            old(self).ready(),
        ensures
            final(self).continues(old(self)),
            final(self)@ == unary_typed(old(self).context(), old(self)@, expression, operator, operand),
    {
        proof {
            reveal(unary_typed);
        }
        if let TypeState::Resolved(ty) = operand {
            let int_type = self.analysis.types.primitive(PrimitiveType::Int);
            let float_type = self.analysis.types.primitive(PrimitiveType::Float);
            let bool_type = self.analysis.types.primitive(PrimitiveType::Bool);
            let valid = match operator {
                UnaryOperator::LogicalNot => ty == bool_type,
                UnaryOperator::BitwiseNot => ty == int_type,
                UnaryOperator::Plus | UnaryOperator::Minus => ty == int_type || ty == float_type,
            };
            if valid {
                self.replace_if_changed(expression, TypeState::Resolved(ty));
            } else {
                self.refuse_if_open(expression, "unary operator is not defined for the narrowed operand type");
            }
        }
    }

    pub fn type_binary(&mut self, expression: Span, operator: BinaryOperator, left: TypeState, right: TypeState)
        requires
            old(self).ready(),
        ensures
            final(self).continues(old(self)),
            final(self)@ == binary_typed(old(self).context(), old(self)@, expression, operator, left, right),
    {
        proof {
            reveal(binary_typed);
        }
        let (left, right) = match (left, right) {
            (TypeState::Resolved(left), TypeState::Resolved(right)) => (left, right),
            _ => return,
        };
        let bool_type = self.analysis.types.primitive(PrimitiveType::Bool);
        let contained = match self.shape(right) {
            Some(ResolvedType::List(element)) => *element == left,
            Some(ResolvedType::Mapping { key, .. }) => *key == left,
            _ => false,
        };
        let logical = operator == BinaryOperator::LogicalOr || operator == BinaryOperator::LogicalAnd;
        let comparison = operator == BinaryOperator::Equal || operator == BinaryOperator::NotEqual || operator
            == BinaryOperator::Less || operator == BinaryOperator::LessEqual || operator == BinaryOperator::Greater
            || operator == BinaryOperator::GreaterEqual;
        let result = if logical && left == bool_type && right == bool_type {
            Some(bool_type)
        } else if comparison && left == right {
            Some(bool_type)
        } else if operator == BinaryOperator::In && contained {
            Some(bool_type)
        } else if left == right {
            Some(left)
        } else {
            None
        };
        match result {
            Some(result) => self.replace_if_changed(expression, TypeState::Resolved(result)),
            None => self.refuse_if_open(expression, "operator is not defined for the narrowed operand types"),
        }
    }

    pub fn type_list(&mut self, expression: Span, elements: &Vec<Expression>)
        requires
            old(self).ready(),
        ensures
            final(self).continues(old(self)),
            final(self)@ == list_typed(old(self)@, expression, elements@),
    {
        proof {
            reveal(list_typed);
        }
        if elements.len() == 0 {
            return;
        }
        let element = match self.state(elements[0].span) {
            TypeState::Resolved(element) => element,
            _ => return,
        };
        let mut index: usize = 0;
        while index < elements.len()
            invariant
                index <= elements@.len(),
                self.ready(),
                *self == *old(self),
                elements@.len() > 0,
                known(self@, elements@[0].span) == TypeState::Resolved(element),
                forall|i: int|
                    0 <= i < index ==> known(self@, (#[trigger] elements@[i]).span) == TypeState::Resolved(element),
            decreases elements@.len() - index,
        {
            if self.state(elements[index].span) != TypeState::Resolved(element) {
                proof {
                    reveal(list_typed);
                    assert(known(self@, elements@[index as int].span) != TypeState::Resolved(element));
                }
                return;
            }
            index += 1;
        }
        let list = self.intern(ResolvedType::List(element));
        self.replace_if_changed(expression, TypeState::Resolved(list));
    }

    pub fn type_mapping(&mut self, expression: Span, entries: &Vec<MapEntry>)
        requires
            old(self).ready(),
        ensures
            final(self).continues(old(self)),
            final(self)@ == mapping_typed(old(self)@, expression, entries@),
    {
        proof {
            reveal(mapping_typed);
        }
        if entries.len() == 0 {
            return;
        }
        let (key, value) = match (self.state(entries[0].key.span), self.state(entries[0].value.span)) {
            (TypeState::Resolved(key), TypeState::Resolved(value)) => (key, value),
            _ => return,
        };
        if self.entries_have(entries, key, value) {
            let mapping = self.intern(ResolvedType::Mapping { key, value });
            self.replace_if_changed(expression, TypeState::Resolved(mapping));
        }
    }

    fn entries_have(&self, entries: &Vec<MapEntry>, key: TypeId, value: TypeId) -> (result: bool)
        ensures
            result == entries_have(self@, entries@, key, value),
    {
        let mut index: usize = 0;
        while index < entries.len()
            invariant
                index <= entries@.len(),
                forall|i: int|
                    0 <= i < index ==> known(self@, (#[trigger] entries@[i]).key.span) == TypeState::Resolved(key)
                        && known(self@, entries@[i].value.span) == TypeState::Resolved(value),
            decreases entries@.len() - index,
        {
            if self.state(entries[index].key.span) != TypeState::Resolved(key) || self.state(entries[index].value.span)
                != TypeState::Resolved(value) {
                assert(!(known(self@, entries@[index as int].key.span) == TypeState::Resolved(key) && known(
                    self@,
                    entries@[index as int].value.span,
                ) == TypeState::Resolved(value)));
                return false;
            }
            index += 1;
        }
        true
    }

    pub fn block_state(&self, block: &Block) -> (result: TypeState)
        ensures
            result == block_value(self@, block),
    {
        proof {
            reveal(block_value);
        }
        match &block.value {
            Some(value) => self.state(value.span),
            None => TypeState::Resolved(self.analysis.types.unit()),
        }
    }

    pub fn body_state(&self, body: &ExpressionBody) -> (result: TypeState)
        ensures
            result == body_value(self@, body),
    {
        proof {
            reveal(body_value);
        }
        match &body.kind {
            ExpressionBodyKind::Expression(expression) => self.state(expression.span),
            ExpressionBodyKind::Block(block) => self.block_state(block),
        }
    }

    pub fn type_choice(&mut self, expression: Span, states: &Vec<TypeState>)
        requires
            old(self).ready(),
        ensures
            final(self).continues(old(self)),
            final(self)@ == choice_typed(old(self)@, expression, states@),
    {
        proof {
            reveal(choice_typed);
        }
        if let Some(ty) = settled_type(states) {
            let mut index: usize = 0;
            while index < states.len()
                invariant
                    index <= states@.len(),
                    self.ready(),
                    *self == *old(self),
                    first_resolved(states@, 0) == Some(ty),
                    forall|i: int|
                        0 <= i < index ==> #[trigger] states@[i] == TypeState::Resolved(ty) || states@[i]
                            == TypeState::Never,
                decreases states@.len() - index,
            {
                if states[index] != TypeState::Resolved(ty) && states[index] != TypeState::Never {
                    proof {
                        reveal(choice_typed);
                    }
                    return;
                }
                index += 1;
            }
            self.replace_if_changed(expression, TypeState::Resolved(ty));
        }
    }

    /// The member of a value of a named type, and how it is got at.
    fn member(&self, receiver: TypeId, member: Member) -> (result: Option<(TypeState, Option<ProjectionKind>)>)
        ensures
            result == member_of(self.context(), self@, receiver, member),
    {
        proof {
            reveal(member_of);
        }
        let declaration = match self.shape(receiver) {
            Some(ResolvedType::Nominal(declaration)) => *declaration,
            _ => return None,
        };
        if declaration.0 >= self.analysis.type_definitions.len() {
            return None;
        }
        match (&self.analysis.type_definitions[declaration.0].kind, member) {
            (TypeDefinitionKind::Struct(members), Member::Named(name)) => {
                let wanted = source_text(&self.analysis, name.span);
                match find_member(&self.analysis, members, &wanted) {
                    Some(field) => {
                        let projection = match members[field].ty {
                            TypeState::Resolved(result) => Some(
                                ProjectionKind::Struct {
                                    declaration,
                                    field,
                                    storage: members[field].storage,
                                    result,
                                },
                            ),
                            _ => None,
                        };
                        Some((members[field].ty, projection))
                    },
                    None => None,
                }
            },
            (TypeDefinitionKind::Tuple(members), Member::TupleIndex(span)) => match position(&self.analysis, span) {
                Some(position) => if position < members.len() {
                    let projection = match members[position].ty {
                        TypeState::Resolved(result) => Some(ProjectionKind::Tuple { declaration, position, result }),
                        _ => None,
                    };
                    Some((members[position].ty, projection))
                } else {
                    None
                },
                None => None,
            },
            _ => None,
        }
    }

    fn project(&mut self, expression: Span, kind: Option<ProjectionKind>)
        requires
            old(self).ready(),
        ensures
            final(self).continues(old(self)),
            final(self)@ == projected(old(self)@, expression, kind),
    {
        proof {
            reveal(projected);
        }
        if let Some(kind) = kind {
            if latest_fact(&self.analysis.projections, expression).is_none() {
                self.analysis.projections.push(ProjectionResolution { node: expression, kind });
            }
        }
        assert(self@ =~= projected(old(self)@, expression, kind));
    }

    pub fn type_member(&mut self, expression: Span, value: Span, member: Member)
        requires
            old(self).ready(),
        ensures
            final(self).continues(old(self)),
            final(self)@ == member_typed(old(self).context(), old(self)@, expression, value, member),
    {
        proof {
            reveal(member_typed);
        }
        if let TypeState::Resolved(receiver) = self.state(value) {
            match self.member(receiver, member) {
                Some((state, projection)) => {
                    self.project(expression, projection);
                    self.replace_if_changed(expression, state);
                },
                None => self.refuse_if_open(expression, "member is not available on the narrowed alternative"),
            }
        }
    }

    fn indexed(&self, value: TypeId, index: TypeId) -> (result: Option<(TypeId, ProjectionKind)>)
        ensures
            result == indexed(self@, value, index),
    {
        let int_type = self.analysis.types.primitive(PrimitiveType::Int);
        match self.shape(value) {
            Some(ResolvedType::List(element)) => if index == int_type {
                Some((*element, ProjectionKind::List { element: *element }))
            } else {
                None
            },
            Some(ResolvedType::Mapping { key, value }) => if index == *key {
                Some((*value, ProjectionKind::Mapping { key: *key, value: *value }))
            } else {
                None
            },
            Some(ResolvedType::Primitive(PrimitiveType::Str)) => if index == int_type {
                let character = self.analysis.types.primitive(PrimitiveType::Char);
                Some((character, ProjectionKind::String { result: character }))
            } else {
                None
            },
            _ => None,
        }
    }

    pub fn type_index(&mut self, expression: Span, value: Span, index: Span)
        requires
            old(self).ready(),
        ensures
            final(self).continues(old(self)),
            final(self)@ == index_typed(old(self).context(), old(self)@, expression, value, index),
    {
        proof {
            reveal(index_typed);
        }
        let (value, index) = match (self.state(value), self.state(index)) {
            (TypeState::Resolved(value), TypeState::Resolved(index)) => (value, index),
            _ => return,
        };
        match self.indexed(value, index) {
            Some((result, projection)) => {
                self.project(expression, Some(projection));
                self.replace_if_changed(expression, TypeState::Resolved(result));
            },
            None => self.refuse_if_open(
                expression,
                "index operation is not defined for the narrowed alternative",
            ),
        }
    }
}

/// Settles the open records about a node.
pub fn settle(records: &mut Vec<DeferredRecord>, node: AstNode)
    ensures
        final(records)@ == settled(old(records)@, node),
{
    let ghost before = records@;
    let mut index: usize = 0;
    while index < records.len()
        invariant
            index <= records@.len(),
            records@.len() == before.len(),
            forall|i: int| 0 <= i < index ==> #[trigger] records@[i] == settled(before, node)[i],
            forall|i: int| index <= i < records@.len() ==> #[trigger] records@[i] == before[i],
        decreases records@.len() - index,
    {
        if records[index].node == node {
            let record = records[index];
            records.set(index, DeferredRecord { resolved: true, ..record });
        }
        index += 1;
    }
    assert(records@ =~= settled(before, node));
}

pub fn copy_narrowings(narrowed: &Vec<(BindingId, TypeId)>) -> (result: Vec<(BindingId, TypeId)>)
    ensures
        result@ == narrowed@,
{
    let mut copy: Vec<(BindingId, TypeId)> = Vec::new();
    let mut index: usize = 0;
    while index < narrowed.len()
        invariant
            index <= narrowed@.len(),
            copy@ == narrowed@.subrange(0, index as int),
        decreases narrowed@.len() - index,
    {
        copy.push(narrowed[index]);
        proof {
            assert(narrowed@.subrange(0, index + 1) =~= narrowed@.subrange(0, index as int).push(
                narrowed@[index as int],
            ));
        }
        index += 1;
    }
    assert(copy@ =~= narrowed@);
    copy
}

fn other_narrowings(narrowed: &Vec<(BindingId, TypeId)>, binding: BindingId) -> (result: Vec<(BindingId, TypeId)>)
    ensures
        result@ == without(narrowed@, binding),
{
    let mut kept: Vec<(BindingId, TypeId)> = Vec::new();
    let mut index: usize = 0;
    while index < narrowed.len()
        invariant
            index <= narrowed@.len(),
            kept@ == without(narrowed@.subrange(0, index as int), binding),
        decreases narrowed@.len() - index,
    {
        assert(narrowed@.subrange(0, index + 1).drop_last() =~= narrowed@.subrange(0, index as int));
        if narrowed[index].0 != binding {
            kept.push(narrowed[index]);
        }
        index += 1;
    }
    assert(narrowed@.subrange(0, narrowed@.len() as int) =~= narrowed@);
    kept
}

pub fn copy_alternatives(alternatives: &Vec<UnionAlternative>) -> (result: Vec<UnionAlternative>)
    ensures
        alternative_views(result@) == alternative_views(alternatives@),
{
    let mut copy: Vec<UnionAlternative> = Vec::new();
    let mut index: usize = 0;
    while index < alternatives.len()
        invariant
            index <= alternatives@.len(),
            copy@.len() == index,
            forall|i: int| 0 <= i < index ==> (#[trigger] copy@[i])@ == alternatives@[i]@,
        decreases alternatives@.len() - index,
    {
        copy.push(alternatives[index].duplicate());
        index += 1;
    }
    assert(alternative_views(copy@) =~= alternative_views(alternatives@));
    copy
}

/// Whether two types have the same contents.
pub fn same_type(left: &ResolvedType, right: &ResolvedType) -> (result: bool)
    ensures
        result == (left@ == right@),
{
    match (left, right) {
        (ResolvedType::Unit, ResolvedType::Unit) => true,
        (ResolvedType::Primitive(left), ResolvedType::Primitive(right)) => *left == *right,
        (ResolvedType::List(left), ResolvedType::List(right)) => *left == *right,
        (
            ResolvedType::Mapping { key: left_key, value: left_value },
            ResolvedType::Mapping { key: right_key, value: right_value },
        ) => *left_key == *right_key && *left_value == *right_value,
        (ResolvedType::Nominal(left), ResolvedType::Nominal(right)) => *left == *right,
        (ResolvedType::Union(left), ResolvedType::Union(right)) => same_alternatives(left, right),
        _ => false,
    }
}

fn same_alternatives(left: &Vec<UnionAlternative>, right: &Vec<UnionAlternative>) -> (result: bool)
    ensures
        result == (alternative_views(left@) == alternative_views(right@)),
{
    if left.len() != right.len() {
        assert(alternative_views(left@).len() != alternative_views(right@).len());
        return false;
    }
    let mut index: usize = 0;
    while index < left.len()
        invariant
            index <= left@.len(),
            left@.len() == right@.len(),
            forall|i: int| 0 <= i < index ==> (#[trigger] left@[i])@ == right@[i]@,
        decreases left@.len() - index,
    {
        if !left[index].same(&right[index]) {
            assert(alternative_views(left@)[index as int] != alternative_views(right@)[index as int]);
            return false;
        }
        index += 1;
    }
    assert(alternative_views(left@) =~= alternative_views(right@));
    true
}

/// The style of a union without a name.
pub fn union_style(alternatives: &Vec<UnionAlternative>) -> (result: UnionStyle)
    ensures
        result == style_of(alternative_views(alternatives@)),
{
    let mut index: usize = 0;
    while index < alternatives.len()
        invariant
            index <= alternatives@.len(),
            forall|i: int| 0 <= i < index ==> !(#[trigger] alternative_views(alternatives@)[i] is Tagged),
        decreases alternatives@.len() - index,
    {
        if let UnionAlternative::Tagged { .. } = &alternatives[index] {
            assert(alternative_views(alternatives@)[index as int] is Tagged);
            return UnionStyle::Tagged;
        }
        index += 1;
    }
    UnionStyle::Untagged
}

pub fn strip_expression_parentheses(e: &Expression) -> (result: &Expression)
    ensures
        *result == *bare(e),
    decreases e,
{
    match &e.kind {
        ExpressionKind::Parenthesized(inner) => strip_expression_parentheses(inner),
        _ => e,
    }
}

/// Whether all alternatives are among others.
fn all_among(alternatives: &Vec<UnionAlternative>, wider: &Vec<UnionAlternative>) -> (result: bool)
    ensures
        result == (forall|i: int|
            0 <= i < alternative_views(alternatives@).len() ==> alternative_views(wider@).contains(
                #[trigger] alternative_views(alternatives@)[i],
            )),
{
    let mut index: usize = 0;
    while index < alternatives.len()
        invariant
            index <= alternatives@.len(),
            forall|i: int|
                0 <= i < index ==> alternative_views(wider@).contains(#[trigger] alternative_views(alternatives@)[i]),
        decreases alternatives@.len() - index,
    {
        if !holds_alternative(wider, &alternatives[index]) {
            assert(!alternative_views(wider@).contains(alternative_views(alternatives@)[index as int]));
            return false;
        }
        index += 1;
    }
    true
}

/// Whether an alternative is in a list.
pub fn holds_alternative(alternatives: &Vec<UnionAlternative>, wanted: &UnionAlternative) -> (result: bool)
    ensures
        result == alternative_views(alternatives@).contains(wanted@),
{
    let mut index: usize = 0;
    while index < alternatives.len()
        invariant
            index <= alternatives@.len(),
            forall|i: int| 0 <= i < index ==> #[trigger] alternative_views(alternatives@)[i] != wanted@,
        decreases alternatives@.len() - index,
    {
        if alternatives[index].same(wanted) {
            assert(alternative_views(alternatives@)[index as int] == wanted@);
            return true;
        }
        index += 1;
    }
    false
}

fn alternatives_carrying(alternatives: &Vec<UnionAlternative>, payload: TypeId) -> (result: Vec<UnionAlternative>)
    ensures
        alternative_views(result@) == carrying(
            alternative_views(alternatives@),
            payload,
            alternatives@.len() as int,
        ),
{
    let mut kept: Vec<UnionAlternative> = Vec::new();
    assert(alternative_views(kept@) =~= seq![]);
    let mut index: usize = 0;
    while index < alternatives.len()
        invariant
            index <= alternatives@.len(),
            alternative_views(kept@) == carrying(alternative_views(alternatives@), payload, index as int),
        decreases alternatives@.len() - index,
    {
        let ghost before = alternative_views(kept@);
        if alternative_payload(&alternatives[index]) == payload {
            kept.push(alternatives[index].duplicate());
            assert(alternative_views(kept@) =~= before.push(alternatives@[index as int]@));
        }
        index += 1;
    }
    kept
}

fn settled_type(states: &Vec<TypeState>) -> (result: Option<TypeId>)
    ensures
        result == first_resolved(states@, 0),
{
    let mut index: usize = 0;
    while index < states.len()
        invariant
            index <= states@.len(),
            first_resolved(states@, index as int) == first_resolved(states@, 0),
        decreases states@.len() - index,
    {
        if let TypeState::Resolved(ty) = states[index] {
            return Some(ty);
        }
        index += 1;
    }
    None
}

/// The first member with a name.
pub fn find_member(analysis: &Analysis, members: &Vec<StructMember>, wanted: &String) -> (result: Option<usize>)
    ensures
        match result {
            Some(field) => field < members@.len() && member_named(analysis.source, members@, wanted@, 0) == Some(
                field as int,
            ),
            None => member_named(analysis.source, members@, wanted@, 0) is None,
        },
{
    let mut index: usize = 0;
    while index < members.len()
        invariant
            index <= members@.len(),
            member_named(analysis.source, members@, wanted@, index as int) == member_named(
                analysis.source,
                members@,
                wanted@,
                0,
            ),
        decreases members@.len() - index,
    {
        let name = source_text(analysis, members[index].name);
        if same_text(name.as_str(), wanted.as_str()) {
            return Some(index);
        }
        index += 1;
    }
    None
}

/// The position that a tuple index denotes.
pub fn position(analysis: &Analysis, span: Span) -> (result: Option<usize>)
    ensures
        result == position_at(analysis.source, span),
{
    proof {
        reveal(position_at);
    }
    let text = source_text(analysis, span);
    let bytes = text.as_str().as_bytes();
    let mut begun = false;
    let mut value: Option<usize> = None;
    let mut index: usize = 0;
    while index < bytes.len()
        invariant
            index <= bytes@.len(),
            number_in(bytes@, index as int, begun, value) == number_in(bytes@, 0, false, None),
            bytes@ == encode_utf8(text_at(analysis.source, span)),
        decreases bytes@.len() - index,
    {
        proof {
            reveal(position_at);
        }
        let byte = bytes[index];
        if byte == 0x5F {
        } else if byte == 0x2B && !begun {
            begun = true;
            value = None;
        } else if byte >= 0x30 && byte <= 0x39 {
            let digit: usize = (byte - 0x30) as usize;
            let before: usize = match value {
                Some(value) => value,
                None => 0,
            };
            if before > usize::MAX / 10 {
                return None;
            }
            let scaled: usize = before * 10;
            if scaled > usize::MAX - digit {
                return None;
            }
            value = Some(scaled + digit);
            begun = true;
        } else {
            return None;
        }
        index += 1;
    }
    value
}

} // verus!
