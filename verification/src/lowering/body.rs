//! Lowering of the statements and expressions of a function body.

use crate::analysis::{
    AccessPathStep, BindingId, BindingNode, CallTarget, CallableId, IntrinsicId, NameResolution, ResolvedType,
    TypeId, TypeState, alternative_payload, latest_fact,
};
use crate::ast::{
    Argument, ArgumentKind, AssignmentOperator, AssignmentTarget, AssignmentTargetSuffix,
    AssignmentTargetSuffixKind, BinaryOperator as SourceOperator, Block, ConditionalExpressionBranch,
    ConditionalStatementBranch, Expression, ExpressionBody, ExpressionBodyKind, ExpressionKind, MapEntry,
    PrimitiveType, Statement, StatementBody, StatementBodyKind, StatementKind, SwitchArm,
    UnaryOperator as SourceUnary,
};
use crate::ir::{
    Aggregate, BinaryOperator, BlockId, BuiltinMethod, ConstantValue, FailureOperation, IntegerOperation,
    LocalId, LocalOrigin, Operand, OperationKind, Place, Projection, RuntimeCheck, TerminatorKind,
};
use crate::lowering::builder::{Builder, LoopContext, LoweredTest, copy_narrowings};
use crate::lowering::model::{
    Narrowing, State, TerminatorView, entry_views, left, locate, open_block, operand_views, seal,
};
use crate::lowering::rules::{joined, merged};
use crate::lowering::steps::{copy_operand, map_assignment, map_binary, only_fact, project};
use crate::lowering::translation::{
    Iteration, argument_rule, arguments_from, arm_rule, arms_from, assigned_rule, assignment_rule,
    authorization, authorizations, authorized, block_rule, block_value_rule, branched, branches_from, call_rule,
    choice_rule, choices_from, closed_loop, condition_rule, control_rule, core_rule, dispatched,
    element_declared, elements_of, else_rule, entries_from, entry_rule, expression_body_rule, expression_rule,
    for_rule, if_expression_rule, if_rule, index_rule, iteration_begun, iteration_ended, iteration_entered,
    list_rule, local_rule, loop_before, looping, mapping_rule, message_rule, name_rule, operand_rule,
    operands_from, operation_of, panic_rule, place_rule, receiver_rule, rest_rule, result_rule, return_checked,
    return_rule, rooted, short_circuit_rule, statement_block_rule, statement_body_rule, statement_rule,
    statements_from, steps_from, stripped, suffix_from, suffix_rule, switch_rule, test_rule, unit_returned,
    while_rule,
};
use crate::semantic::{
    FlowSubject, MutabilityOperation, MutabilityPath, MutabilityResolution, MutabilitySubject, SwitchResolution,
};
use crate::source::Span;
use vstd::prelude::*;

verus! {

/// The expression inside of parentheses.
fn strip(expression: &Expression) -> (result: Span)
    ensures
        result == stripped(expression),
    decreases expression,
{
    match &expression.kind {
        ExpressionKind::Parenthesized(inner) => strip(inner),
        _ => expression.span,
    }
}

/// Where a `for` loop stands.
struct ForLoop {
    element: LocalId,
    iterable: Operand,
    length: LocalId,
    index: LocalId,
    header: BlockId,
    body: BlockId,
    advance: BlockId,
    cleanup: BlockId,
    exit: BlockId,
}

impl ForLoop {
    spec fn view(&self) -> Iteration {
        Iteration {
            element: self.element,
            iterable: self.iterable@,
            length: self.length,
            index: self.index,
            header: self.header,
            body: self.body,
            advance: self.advance,
            cleanup: self.cleanup,
            exit: self.exit,
        }
    }
}

impl<'a> Builder<'a> {
    fn enter_loop(&mut self, entry: LoopContext)
        ensures
            final(self).moves(old(self), looping(old(self)@, entry@)),
    {
        proof {
            reveal(looping);
        }
        let ghost before = *self;
        self.loops.push(entry);
        assert(self@.loops =~= before@.loops.push(entry@));
    }

    fn close_loop(
        &mut self,
        narrowings: Vec<Narrowing>,
        next: BlockId,
        span: Span,
    ) -> (result: Result<(), &'static str>)
        ensures
            final(self).did(old(self), result, closed_loop(old(self)@, narrowings@, next, span)),
    {
        proof {
            reveal(closed_loop);
        }
        let ghost before = *self;
        self.loops.pop();
        proof {
            if before.loops@.len() > 0 {
                assert(self@.loops =~= before@.loops.drop_last());
            } else {
                assert(self@.loops =~= before@.loops);
            }
        }
        self.narrowings = narrowings;
        if self.block.is_some() {
            self.terminate(TerminatorKind::Jump(next), span)
        } else {
            Ok(())
        }
    }

    fn elements_of(&self, iterable: TypeId) -> (result: Result<(TypeId, BuiltinMethod), &'static str>)
        ensures
            result == elements_of(self.context(), iterable),
    {
        if self.analysis.types.contains(iterable) {
            match self.analysis.types.get(iterable) {
                ResolvedType::List(element) => Ok((*element, BuiltinMethod::ListLen)),
                ResolvedType::Mapping { key, .. } => Ok((*key, BuiltinMethod::MapLen)),
                _ => Err("for-loop iterable is not a list or map"),
            }
        } else {
            Err("for-loop iterable is not a list or map")
        }
    }

    #[verifier::spinoff_prover]
    fn begin_iteration(
        &mut self,
        binding_type: TypeId,
        element: LocalId,
        iterable: Operand,
        iterable_span: Span,
        span: Span,
    ) -> (result: Result<ForLoop, &'static str>)
        ensures
            final(self).continues(old(self)),
            match iteration_begun(
                old(self).context(),
                old(self)@,
                binding_type,
                element,
                iterable@,
                iterable_span,
                span,
            ) {
                Ok((state, at)) => result is Ok && result->Ok_0@ == at && final(self)@ == state,
                Err(fault) => result is Err && result->Err_0 == fault,
            },
    {
        proof {
            reveal(iteration_begun);
        }
        let ty = self.source_type(&iterable)?;
        let (element_type, method) = self.elements_of(ty)?;
        if binding_type != element_type {
            return Err("for-loop binding type contradicts its iterable");
        }
        let int_type = self.analysis.types.primitive(PrimitiveType::Int);
        let length = self.temporary(int_type)?;
        let index = self.temporary(int_type)?;
        self.push(OperationKind::BeginIteration { iterable: iterable.duplicate() }, iterable_span)?;
        let arguments: Vec<Operand> = Vec::new();
        assert(operand_views(arguments@) =~= seq![]);
        self.push(
            OperationKind::Builtin {
                destination: length,
                method,
                receiver: iterable.duplicate(),
                arguments,
                failure: None,
            },
            iterable_span,
        )?;
        let zero = self.constant(int_type, ConstantValue::Integer(0))?;
        self.push(OperationKind::Assign { destination: Place::local(index), value: zero }, span)?;
        let header = self.new_block();
        let body = self.new_block();
        let advance = self.new_block();
        let cleanup = self.new_block();
        let exit = self.new_block();
        self.terminate(TerminatorKind::Jump(header), span)?;
        Ok(ForLoop { element, iterable, length, index, header, body, advance, cleanup, exit })
    }

    #[verifier::spinoff_prover]
    fn enter_iteration(&mut self, at: &ForLoop, span: Span) -> (result: Result<(), &'static str>)
        ensures
            final(self).did(old(self), result, iteration_entered(old(self).context(), old(self)@, at@, span)),
    {
        proof {
            reveal(iteration_entered);
        }
        self.block = Some(at.header);
        let condition = self.temporary(self.analysis.types.primitive(PrimitiveType::Bool))?;
        self.push(
            OperationKind::Binary {
                destination: condition,
                operator: BinaryOperator::Less,
                left: copy_operand(at.index),
                right: copy_operand(at.length),
            },
            span,
        )?;
        self.terminate(
            TerminatorKind::Branch {
                condition: copy_operand(condition),
                then_block: at.body,
                else_block: at.cleanup,
            },
            span,
        )?;
        self.enter_loop(
            LoopContext {
                source: span,
                continue_target: at.advance,
                break_target: at.cleanup,
                cleanup: Some(at.iterable.duplicate()),
            },
        );
        self.block = Some(at.body);
        self.push(
            OperationKind::IterationValue {
                destination: at.element,
                iterable: at.iterable.duplicate(),
                index: copy_operand(at.index),
            },
            span,
        )
    }

    #[verifier::spinoff_prover]
    fn end_iteration(&mut self, at: ForLoop, span: Span) -> (result: Result<(), &'static str>)
        requires
            old(self).ready(),
        ensures
            final(self).did(old(self), result, iteration_ended(old(self).context(), old(self)@, at@, span)),
    {
        proof {
            reveal(iteration_ended);
        }
        self.block = Some(at.advance);
        let int_type = self.analysis.types.primitive(PrimitiveType::Int);
        let one = self.constant(int_type, ConstantValue::Integer(1))?;
        let failure = self.failure(span, FailureOperation::IntegerAdd)?;
        self.push(
            OperationKind::Check(
                RuntimeCheck::IntegerOverflow {
                    operation: IntegerOperation::Add,
                    left: copy_operand(at.index),
                    right: one.duplicate(),
                    failure,
                },
            ),
            span,
        )?;
        self.push(
            OperationKind::Binary {
                destination: at.index,
                operator: BinaryOperator::Add,
                left: copy_operand(at.index),
                right: one,
            },
            span,
        )?;
        self.terminate(TerminatorKind::Jump(at.header), span)?;
        self.block = Some(at.cleanup);
        self.push(OperationKind::EndIteration { iterable: at.iterable }, span)?;
        self.terminate(TerminatorKind::Jump(at.exit), span)?;
        self.block = Some(at.exit);
        Ok(())
    }

    fn declare_element(&mut self, name: Span, span: Span) -> (result: Result<(LocalId, TypeId), &'static str>)
        ensures
            final(self).gave(old(self), result, element_declared(old(self).context(), old(self)@, name, span)),
    {
        proof {
            reveal(element_declared);
        }
        let binding = match self.binding_of(BindingNode::Loop(span)) {
            None => return Err("for loop lacks a binding identity"),
            Some(binding) => binding,
        };
        match self.binding_state(binding) {
            TypeState::Resolved(ty) => {
                let target = self.ty(ty)?;
                let text = self.identifier_text(name);
                let local = self.declare(target, Some(text), LocalOrigin::Binding);
                self.bind(binding, local);
                Ok((local, ty))
            },
            _ => Err("for-loop binding type is unresolved"),
        }
    }

    #[verifier::spinoff_prover]
    fn dispatch(&mut self, switch: &SwitchResolution, union: &Operand, arms: usize, span: Span) -> (result: Result<
        (Vec<BlockId>, Option<BlockId>),
        &'static str,
    >)
        ensures
            final(self).continues(old(self)),
            match dispatched(old(self).context(), old(self)@, *switch, union@, arms as nat, span) {
                Ok((state, (blocks, other))) => result is Ok && result->Ok_0.0@ == blocks && result->Ok_0.1 == other
                    && final(self)@ == state && blocks.len() == arms,
                Err(fault) => result is Err && result->Err_0 == fault,
            },
    {
        proof {
            reveal(dispatched);
        }
        let alternatives = self.alternatives_of(
            switch.operand_union,
            "union identity names a non-union nominal",
            "union identity names a non-union type",
        )?;
        let blocks = self.new_blocks(arms);
        let other = if switch.covered.len() < alternatives.len() {
            let block = self.new_block();
            Some(block)
        } else {
            None
        };
        let targets = self.targets(switch, alternatives, &blocks, other)?;
        self.terminate(TerminatorKind::Switch { union: union.duplicate(), targets }, span)?;
        Ok((blocks, other))
    }

    fn find_loop(&self, source: Span) -> (result: Option<usize>)
        ensures
            match result {
                Some(index) => loop_before(self@.loops, source, self@.loops.len() as int) == Some(index as int)
                    && index < self.loops@.len(),
                None => loop_before(self@.loops, source, self@.loops.len() as int) is None,
            },
    {
        let mut index: usize = self.loops.len();
        while index > 0
            invariant
                index <= self.loops@.len(),
                loop_before(self@.loops, source, index as int) == loop_before(
                    self@.loops,
                    source,
                    self@.loops.len() as int,
                ),
            decreases index,
        {
            if self.loops[index - 1].source == source {
                return Some(index - 1);
            }
            index -= 1;
        }
        None
    }

    fn loop_control(&mut self, breaks: bool, span: Span) -> (result: Result<(), &'static str>)
        ensures
            final(self).did(old(self), result, control_rule(old(self).context(), old(self)@, breaks, span)),
    {
        proof {
            reveal(control_rule);
        }
        let target = match only_fact(&self.semantic.flow.loop_controls, span) {
            None => return Err("loop control does not have exactly one target record"),
            Some(index) => self.semantic.flow.loop_controls[index].target,
        };
        let index = match self.find_loop(target) {
            None => return Err("loop control target is not active"),
            Some(index) => index,
        };
        proof {
            assert(self@.loops[index as int] == self.loops@[index as int]@);
        }
        let block = if breaks {
            self.loops[index].break_target
        } else {
            self.loops[index].continue_target
        };
        self.terminate(TerminatorKind::Jump(block), span)
    }

    fn check_return(&self, value: Option<Span>, span: Span) -> (result: Result<usize, &'static str>)
        ensures
            match return_checked(self.context(), value, span) {
                Ok(record) => result is Ok && result->Ok_0 == record && record < self.semantic.flow.returns@.len(),
                Err(fault) => result == Err::<usize, &'static str>(fault),
            },
    {
        proof {
            reveal(return_checked);
        }
        let index = match only_fact(&self.semantic.flow.returns, span) {
            None => return Err("explicit return does not have exactly one flow record"),
            Some(index) => index,
        };
        let record = &self.semantic.flow.returns[index];
        let state = match value {
            None => TypeState::Resolved(self.analysis.types.unit()),
            Some(value) => match self.analysis.expression_state(value) {
                Some(state) => state,
                None => TypeState::Error,
            },
        };
        if record.function != self.function_id {
            return Err("explicit return is linked to the wrong function");
        }
        if record.value != value {
            return Err("explicit return record contradicts its syntax");
        }
        if record.value_state != state {
            return Err("explicit return record has a contradictory value type");
        }
        Ok(index)
    }

    fn unit_return(&mut self, record: usize, span: Span) -> (result: Result<Operand, &'static str>)
        requires
            record < old(self).semantic.flow.returns@.len(),
        ensures
            final(self).yields(
                old(self),
                result,
                unit_returned(old(self).context(), old(self)@, record as int, span),
            ),
    {
        proof {
            reveal(unit_returned);
        }
        let semantic = self.semantic;
        let value = self.constant(self.analysis.types.unit(), ConstantValue::Unit)?;
        match &semantic.flow.returns[record].unit_injection {
            None => Ok(value),
            Some(alternative) => {
                if self.function_id.0 >= self.analysis.function_signatures.len() {
                    return Err("return function result is unresolved");
                }
                match self.analysis.function_signatures[self.function_id.0].result {
                    TypeState::Resolved(union) => self.inject(value, union, alternative, span),
                    _ => Err("return function result is unresolved"),
                }
            },
        }
    }

    fn operation_of(steps: &Vec<AccessPathStep>) -> (result: Result<MutabilityOperation, &'static str>)
        ensures
            result == operation_of(steps@),
    {
        if steps.len() == 0 {
            return Ok(MutabilityOperation::Rebind);
        }
        match steps[steps.len() - 1] {
            AccessPathStep::StructMember { .. } => Ok(MutabilityOperation::ReplaceStructField),
            AccessPathStep::ListIndex { .. } => Ok(MutabilityOperation::ReplaceListElement),
            AccessPathStep::MapIndex { .. } => Ok(MutabilityOperation::ReplaceMapElement),
            AccessPathStep::TupleMember { .. } => Err("tuple assignment reached lowering"),
        }
    }

    fn find_authorization(rights: &Vec<MutabilityResolution>, target: Span) -> (result: (usize, Option<usize>))
        ensures
            result.0 == authorizations(rights@, target, rights@.len() as int),
            match result.1 {
                Some(index) => authorization(rights@, target, rights@.len() as int) == Some(index as int) && index
                    < rights@.len(),
                None => authorization(rights@, target, rights@.len() as int) is None,
            },
    {
        let mut count: usize = 0;
        let mut last: Option<usize> = None;
        let mut index: usize = 0;
        while index < rights.len()
            invariant
                index <= rights@.len(),
                count <= index,
                count == authorizations(rights@, target, index as int),
                match last {
                    Some(found) => authorization(rights@, target, index as int) == Some(found as int) && found < index,
                    None => authorization(rights@, target, index as int) is None,
                },
            decreases rights@.len() - index,
        {
            if rights[index].subject == MutabilitySubject::Assignment(target) {
                count += 1;
                last = Some(index);
            }
            index += 1;
        }
        (count, last)
    }

    #[verifier::spinoff_prover]
    fn authorize(&self, target: &AssignmentTarget) -> (result: Result<(usize, BindingId), &'static str>)
        ensures
            match authorized(self.context(), target) {
                Ok((i, root)) => result is Ok && result->Ok_0.0 == i && result->Ok_0.1 == root && i
                    < self.analysis.assignment_targets@.len(),
                Err(fault) => result == Err::<(usize, BindingId), &'static str>(fault),
            },
    {
        proof {
            reveal(authorized);
        }
        let index = match latest_fact(&self.analysis.assignment_targets, target.span) {
            None => return Err("assignment target fact is missing"),
            Some(index) => index,
        };
        let annotation = &self.analysis.assignment_targets[index];
        let root = match annotation.root {
            None => return Err("assignment target has no root"),
            Some(root) => root,
        };
        let (count, found) = Self::find_authorization(&self.semantic.mutability, target.span);
        let right = match found {
            None => return Err("assignment does not have exactly one mutation authorization"),
            Some(found) => &self.semantic.mutability[found],
        };
        if count != 1 {
            return Err("assignment does not have exactly one mutation authorization");
        }
        let typed = match &right.path {
            MutabilityPath::Assignment(path) => path.len() == annotation.steps.len(),
            _ => false,
        };
        if right.root != root || !typed {
            return Err("assignment mutation authorization contradicts its typed target");
        }
        let name = match self.analysis.name_use(target.root.span) {
            None => return Err("assignment root has no name-use fact"),
            Some(name) => name,
        };
        if name.resolution != NameResolution::Binding(root) || name.access != right.access {
            return Err("assignment mutation authorization contradicts its root access");
        }
        let operation = Self::operation_of(&annotation.steps)?;
        if right.operation != operation {
            return Err("assignment mutation authorization has the wrong operation");
        }
        Ok((index, root))
    }

    fn root_place(&mut self, root: BindingId, direct: bool, span: Span) -> (result: Result<Place, &'static str>)
        ensures
            final(self).continues(old(self)),
            match rooted(old(self).context(), old(self)@, root, direct, span) {
                Ok((state, place)) => result is Ok && result->Ok_0@ == place && final(self)@ == state,
                Err(fault) => result == Err::<Place, &'static str>(fault),
            },
    {
        proof {
            reveal(rooted);
        }
        if direct {
            return match self.bound(root) {
                None => Err("assignment root has not been allocated"),
                Some(local) => Ok(Place::local(local)),
            };
        }
        match self.local_of(root, None) {
            None => Err("assignment root has not been allocated"),
            Some(local) => match self.stabilize(copy_operand(local), span)? {
                Operand::Copy(place) => Ok(place),
                Operand::Constant(_) => Err("assignment root has not been allocated"),
            },
        }
    }

    fn name(&self, identifier: Span, expression: Span) -> (result: Result<Operand, &'static str>)
        ensures
            match name_rule(self.context(), self@, identifier, expression) {
                Ok((_, value)) => result is Ok && Some(result->Ok_0@) == value,
                Err(fault) => result == Err::<Operand, &'static str>(fault),
            },
    {
        match self.analysis.name_use(identifier) {
            Some(name) => match name.resolution {
                NameResolution::Binding(binding) => {
                    let ty = self.expression_type(expression)?;
                    match self.local_of(binding, Some(ty)) {
                        None => Err("binding has not been allocated"),
                        Some(local) => Ok(copy_operand(local)),
                    }
                },
                _ => Err("value identifier is not a binding"),
            },
            None => Err("value identifier is not a binding"),
        }
    }
}

impl<'a> Builder<'a> {
    fn make_list(&mut self, expression: Span, elements: Vec<Operand>) -> (result: Result<Option<Operand>, &'static str>)
        ensures
            final(self).ends(
                old(self),
                result,
                list_rule(old(self).context(), old(self)@, expression, operand_views(elements@)),
            ),
    {
        let ty = self.raw_type(expression)?;
        let ty = self.ty(ty)?;
        let made = self.aggregate(expression, Aggregate::List { ty, elements })?;
        Ok(Some(made))
    }

    fn make_map(&mut self, expression: Span, entries: Vec<(Operand, Operand)>) -> (result: Result<
        Option<Operand>,
        &'static str,
    >)
        ensures
            final(self).ends(
                old(self),
                result,
                mapping_rule(old(self).context(), old(self)@, expression, entry_views(entries@)),
            ),
    {
        let ty = self.raw_type(expression)?;
        let ty = self.ty(ty)?;
        let made = self.aggregate(expression, Aggregate::Mapping { ty, entries })?;
        Ok(Some(made))
    }

    pub fn expression(&mut self, e: &Expression) -> (result: Result<Option<Operand>, &'static str>)
        requires
            old(self).ready(),
        ensures
            final(self).ends(old(self), result, expression_rule(old(self).context(), old(self)@, e)),
        decreases e, 4int,
    {
        let expected = self.falls_through(
            FlowSubject::Expression(e.span),
            "expression does not have exactly one flow summary",
        )?;
        let value = self.expression_core(e)?;
        let value = self.injected(e.span, value)?;
        if expected != value.is_some() || expected != self.block.is_some() {
            return Err("expression lowering contradicts its flow summary");
        }
        Ok(value)
    }

    fn operand(&mut self, e: &Expression) -> (result: Result<Option<Operand>, &'static str>)
        requires
            old(self).ready(),
        ensures
            final(self).ends(old(self), result, operand_rule(old(self).context(), old(self)@, e)),
        decreases e, 5int,
    {
        match self.expression(e)? {
            None => Ok(None),
            Some(value) => {
                let stable = self.stabilize(value, e.span)?;
                Ok(Some(stable))
            },
        }
    }

    #[verifier::spinoff_prover]
    #[verifier::rlimit(60)]
    fn expression_core(&mut self, e: &Expression) -> (result: Result<Option<Operand>, &'static str>)
        requires
            old(self).ready(),
        ensures
            final(self).ends(old(self), result, core_rule(old(self).context(), old(self)@, e)),
        decreases e, 3int,
    {
        match &e.kind {
            ExpressionKind::Unit => {
                let ty = self.raw_type(e.span)?;
                let value = self.constant(ty, ConstantValue::Unit)?;
                Ok(Some(value))
            },
            ExpressionKind::Integer
            | ExpressionKind::Float
            | ExpressionKind::String(_)
            | ExpressionKind::Character(_)
            | ExpressionKind::Boolean(_) => {
                let value = self.literal_constant(e.span)?;
                Ok(Some(value))
            },
            ExpressionKind::Identifier(identifier) => {
                let value = self.name(identifier.span, e.span)?;
                Ok(Some(value))
            },
            ExpressionKind::Parenthesized(inner) => self.expression(inner),
            ExpressionKind::Conversion { operand, .. } => {
                let (conversion, destination) = self.conversion_of(e.span)?;
                match self.expression(operand)? {
                    None => Ok(None),
                    Some(value) => {
                        let value = self.converted(value, conversion, destination, e.span)?;
                        Ok(Some(value))
                    },
                }
            },
            ExpressionKind::Unary { operator, operator_span, operand } => {
                if *operator == SourceUnary::Minus && self.is_smallest(operand.span) {
                    let ty = self.raw_type(e.span)?;
                    let value = self.constant(ty, ConstantValue::Integer(i64::MIN))?;
                    return Ok(Some(value));
                }
                match self.expression(operand)? {
                    None => Ok(None),
                    Some(value) => {
                        let value = self.negated(value, *operator, operand.span, *operator_span, e.span)?;
                        Ok(Some(value))
                    },
                }
            },
            ExpressionKind::Binary { left, operator, operator_span, right } => {
                if *operator == SourceOperator::LogicalAnd || *operator == SourceOperator::LogicalOr {
                    return self.short_circuit(e);
                }
                let first = match self.operand(left)? {
                    None => return Ok(None),
                    Some(first) => first,
                };
                let second = match self.operand(right)? {
                    None => return Ok(None),
                    Some(second) => second,
                };
                let ty = self.raw_type(e.span)?;
                let operator = map_binary(*operator)?;
                let value = self.checked_binary(ty, operator, first, second, *operator_span, e.span)?;
                Ok(Some(value))
            },
            ExpressionKind::List(elements) => match self.operands(elements)? {
                None => Ok(None),
                Some(values) => self.make_list(e.span, values),
            },
            ExpressionKind::Mapping(entries) => match self.entries(entries)? {
                None => Ok(None),
                Some(values) => self.make_map(e.span, values),
            },
            ExpressionKind::TypedEmptyList(_) => {
                let elements: Vec<Operand> = Vec::new();
                assert(operand_views(elements@) =~= seq![]);
                self.make_list(e.span, elements)
            },
            ExpressionKind::TypedEmptyMap(_) => {
                let entries: Vec<(Operand, Operand)> = Vec::new();
                assert(entry_views(entries@) =~= seq![]);
                self.make_map(e.span, entries)
            },
            ExpressionKind::Call { .. } => self.call(e),
            ExpressionKind::Member { value, .. } => match self.operand(value)? {
                None => Ok(None),
                Some(receiver) => {
                    let value = self.member_place(receiver, e.span)?;
                    Ok(Some(value))
                },
            },
            ExpressionKind::Index { value, index } => {
                let receiver = match self.operand(value)? {
                    None => return Ok(None),
                    Some(receiver) => receiver,
                };
                let at = match self.expression(index)? {
                    None => return Ok(None),
                    Some(at) => at,
                };
                let at = self.materialize(at, index.span)?;
                let value = self.indexed(receiver, at, e.span, index.span)?;
                Ok(Some(value))
            },
            ExpressionKind::Block(block) => self.block_value(block),
            ExpressionKind::If { .. } => self.if_expression(e),
            ExpressionKind::Is { value, .. } => self.union_test(value, e.span),
            ExpressionKind::Try { value, .. } => match self.operand(value)? {
                None => Ok(None),
                Some(operand) => {
                    let value = self.attempted(e.span, value.span, operand)?;
                    Ok(Some(value))
                },
            },
        }
    }

    #[verifier::loop_isolation(false)]
    fn operands(&mut self, expressions: &Vec<Expression>) -> (result: Result<Option<Vec<Operand>>, &'static str>)
        requires
            old(self).ready(),
        ensures
            final(self).continues(old(self)),
            match operands_from(old(self).context(), old(self)@, expressions@, 0, seq![]) {
                Ok((state, values)) => result is Ok && final(self)@ == state && match values {
                    Some(values) => result->Ok_0 is Some && operand_views((result->Ok_0)->0@) == values,
                    None => result->Ok_0 is None,
                },
                Err(fault) => result is Err && result->Err_0 == fault,
            },
        decreases expressions, 0int,
    {
        let ghost first = *self;
        let ghost c = self.context();
        let mut values: Vec<Operand> = Vec::new();
        assert(operand_views(values@) =~= seq![]);
        let mut index: usize = 0;
        while index < expressions.len()
            invariant
                self.ready(),
                self.continues(&first),
                index <= expressions@.len(),
                operands_from(c, self@, expressions@, index as int, operand_views(values@)) == operands_from(
                    c,
                    first@,
                    expressions@,
                    0,
                    seq![],
                ),
            decreases expressions@.len() - index,
        {
            match self.operand(&expressions[index])? {
                None => return Ok(None),
                Some(value) => {
                    let ghost before = values@;
                    let ghost added = value@;
                    values.push(value);
                    assert(operand_views(values@) =~= operand_views(before).push(added));
                },
            }
            index += 1;
        }
        Ok(Some(values))
    }

    fn argument(&mut self, argument: &Argument) -> (result: Result<Option<Operand>, &'static str>)
        requires
            old(self).ready(),
        ensures
            final(self).ends(old(self), result, argument_rule(old(self).context(), old(self)@, argument)),
        decreases argument, 0int,
    {
        match &argument.kind {
            ArgumentKind::Positional(value) => self.operand(value),
            ArgumentKind::Named { value, .. } => self.operand(value),
        }
    }

    #[verifier::loop_isolation(false)]
    fn arguments(&mut self, arguments: &Vec<Argument>) -> (result: Result<Option<Vec<Operand>>, &'static str>)
        requires
            old(self).ready(),
        ensures
            final(self).continues(old(self)),
            match arguments_from(old(self).context(), old(self)@, arguments@, 0, seq![]) {
                Ok((state, values)) => result is Ok && final(self)@ == state && match values {
                    Some(values) => result->Ok_0 is Some && operand_views((result->Ok_0)->0@) == values,
                    None => result->Ok_0 is None,
                },
                Err(fault) => result is Err && result->Err_0 == fault,
            },
        decreases arguments, 0int,
    {
        let ghost first = *self;
        let ghost c = self.context();
        let mut values: Vec<Operand> = Vec::new();
        assert(operand_views(values@) =~= seq![]);
        let mut index: usize = 0;
        while index < arguments.len()
            invariant
                self.ready(),
                self.continues(&first),
                index <= arguments@.len(),
                arguments_from(c, self@, arguments@, index as int, operand_views(values@)) == arguments_from(
                    c,
                    first@,
                    arguments@,
                    0,
                    seq![],
                ),
            decreases arguments@.len() - index,
        {
            match self.argument(&arguments[index])? {
                None => return Ok(None),
                Some(value) => {
                    let ghost before = values@;
                    let ghost added = value@;
                    values.push(value);
                    assert(operand_views(values@) =~= operand_views(before).push(added));
                },
            }
            index += 1;
        }
        Ok(Some(values))
    }

    fn entry(&mut self, entry: &MapEntry) -> (result: Result<Option<(Operand, Operand)>, &'static str>)
        requires
            old(self).ready(),
        ensures
            final(self).continues(old(self)),
            match entry_rule(old(self).context(), old(self)@, entry) {
                Ok((state, value)) => result is Ok && final(self)@ == state && match value {
                    Some((key, value)) => result->Ok_0 is Some && ((result->Ok_0)->0).0@ == key && ((result->Ok_0)->0).1@
                        == value,
                    None => result->Ok_0 is None,
                },
                Err(fault) => result is Err && result->Err_0 == fault,
            },
        decreases entry, 0int,
    {
        let key = match self.operand(&entry.key)? {
            None => return Ok(None),
            Some(key) => key,
        };
        match self.operand(&entry.value)? {
            None => Ok(None),
            Some(value) => Ok(Some((key, value))),
        }
    }

    #[verifier::loop_isolation(false)]
    fn entries(&mut self, entries: &Vec<MapEntry>) -> (result: Result<Option<Vec<(Operand, Operand)>>, &'static str>)
        requires
            old(self).ready(),
        ensures
            final(self).continues(old(self)),
            match entries_from(old(self).context(), old(self)@, entries@, 0, seq![]) {
                Ok((state, values)) => result is Ok && final(self)@ == state && match values {
                    Some(values) => result->Ok_0 is Some && entry_views((result->Ok_0)->0@) == values,
                    None => result->Ok_0 is None,
                },
                Err(fault) => result is Err && result->Err_0 == fault,
            },
        decreases entries, 0int,
    {
        let ghost first = *self;
        let ghost c = self.context();
        let mut values: Vec<(Operand, Operand)> = Vec::new();
        assert(entry_views(values@) =~= seq![]);
        let mut index: usize = 0;
        while index < entries.len()
            invariant
                self.ready(),
                self.continues(&first),
                index <= entries@.len(),
                entries_from(c, self@, entries@, index as int, entry_views(values@)) == entries_from(
                    c,
                    first@,
                    entries@,
                    0,
                    seq![],
                ),
            decreases entries@.len() - index,
        {
            match self.entry(&entries[index])? {
                None => return Ok(None),
                Some(pair) => {
                    let ghost before = values@;
                    let ghost added = (pair.0@, pair.1@);
                    values.push(pair);
                    assert(entry_views(values@) =~= entry_views(before).push(added));
                },
            }
            index += 1;
        }
        Ok(Some(values))
    }

    fn receiver(&mut self, callee: &Expression) -> (result: Result<Option<Operand>, &'static str>)
        requires
            old(self).ready(),
        ensures
            final(self).ends(old(self), result, receiver_rule(old(self).context(), old(self)@, callee)),
        decreases callee, 0int,
    {
        match &callee.kind {
            ExpressionKind::Member { value, .. } => self.operand(value),
            _ => Err("built-in call has no receiver"),
        }
    }

    fn message(&mut self, argument: &Argument) -> (result: Result<Option<Operand>, &'static str>)
        requires
            old(self).ready(),
        ensures
            final(self).ends(old(self), result, message_rule(old(self).context(), old(self)@, argument)),
        decreases argument, 0int,
    {
        match &argument.kind {
            ArgumentKind::Positional(value) => self.expression(value),
            ArgumentKind::Named { value, .. } => self.expression(value),
        }
    }

    fn panic_call(&mut self, arguments: &Vec<Argument>, expression: Span) -> (result: Result<
        Option<Operand>,
        &'static str,
    >)
        requires
            old(self).ready(),
        ensures
            final(self).ends(
                old(self),
                result,
                panic_rule(old(self).context(), old(self)@, arguments@, expression),
            ),
        decreases arguments, 0int,
    {
        if arguments.len() != 1 {
            return Err("panic call does not have exactly one argument");
        }
        let message = match self.message(&arguments[0])? {
            None => return Ok(None),
            Some(message) => message,
        };
        let failure = self.failure(expression, FailureOperation::ExplicitPanic)?;
        self.terminate(TerminatorKind::Panic { message, failure }, expression)?;
        Ok(None)
    }

    #[verifier::spinoff_prover]
    fn call(&mut self, e: &Expression) -> (result: Result<Option<Operand>, &'static str>)
        requires
            old(self).ready(),
        ensures
            final(self).ends(old(self), result, call_rule(old(self).context(), old(self)@, e)),
        decreases e, 2int,
    {
        let (callee, arguments) = match &e.kind {
            ExpressionKind::Call { callee, arguments } => (callee, arguments),
            _ => return Err("call target fact is missing"),
        };
        let target = match self.analysis.call_target(e.span) {
            None => return Err("call target fact is missing"),
            Some(target) => target,
        };
        if let CallTarget::Callable(CallableId::Intrinsic(IntrinsicId::Panic)) = target {
            return self.panic_call(arguments, e.span);
        }
        let analysis = self.analysis;
        if let Some(index) = latest_fact(&analysis.constructors, e.span) {
            return match self.arguments(arguments)? {
                None => Ok(None),
                Some(values) => {
                    let value = self.constructed(e.span, &analysis.constructors[index].kind, values)?;
                    Ok(Some(value))
                },
            };
        }
        let receiver = match target {
            CallTarget::Builtin(_) => match self.receiver(callee)? {
                None => return Ok(None),
                Some(receiver) => Some(receiver),
            },
            _ => None,
        };
        match self.arguments(arguments)? {
            None => Ok(None),
            Some(values) => {
                let value = self.called(e.span, target, receiver, values)?;
                Ok(Some(value))
            },
        }
    }

    #[verifier::spinoff_prover]
    fn union_test(&mut self, value: &Expression, expression: Span) -> (result: Result<Option<Operand>, &'static str>)
        requires
            old(self).ready(),
        ensures
            final(self).ends(old(self), result, test_rule(old(self).context(), old(self)@, value, expression)),
        decreases value, 6int,
    {
        let semantic = self.semantic;
        let test = match only_fact(&semantic.union_tests, expression) {
            None => return Err("union test does not have exactly one resolution"),
            Some(index) => &semantic.union_tests[index],
        };
        let union = self.expression_type(value.span)?;
        if test.operand_union != union || alternative_payload(&test.alternative) != test.payload {
            return Err("union test resolution contradicts its operand");
        }
        let operand = match self.operand(value)? {
            None => return Ok(None),
            Some(operand) => operand,
        };
        let alternative = self.alternative_id(test.operand_union, &test.alternative)?;
        let destination = self.temporary(self.analysis.types.primitive(PrimitiveType::Bool))?;
        self.push(
            OperationKind::UnionTest { destination, union: operand.duplicate(), alternative },
            expression,
        )?;
        let ghost before = *self;
        let lowered = LoweredTest {
            expression,
            binding: test.binding,
            union: operand,
            alternative,
            payload: test.payload,
        };
        let ghost added = lowered@;
        self.lowered_tests.push(lowered);
        assert(self@.tests =~= before@.tests.push(added));
        Ok(Some(copy_operand(destination)))
    }

    #[verifier::spinoff_prover]
    fn short_circuit(&mut self, e: &Expression) -> (result: Result<Option<Operand>, &'static str>)
        requires
            old(self).ready(),
        ensures
            final(self).ends(old(self), result, short_circuit_rule(old(self).context(), old(self)@, e)),
        decreases e, 2int,
    {
        let (left, operator, right) = match &e.kind {
            ExpressionKind::Binary { left, operator, right, .. } => (left, *operator, right),
            _ => return Err("short-circuit expression lost its condition block"),
        };
        let condition = match self.operand(left)? {
            None => return Ok(None),
            Some(condition) => condition,
        };
        let ty = self.raw_type(e.span)?;
        let target = self.temporary(ty)?;
        self.push(OperationKind::Copy { destination: target, operand: condition.duplicate() }, left.span)?;
        let decision = match self.block {
            None => return Err("short-circuit expression lost its condition block"),
            Some(decision) => decision,
        };
        let right_block = self.new_block();
        self.block = Some(right_block);
        if let Some(value) = self.expression(right)? {
            self.push(OperationKind::Assign { destination: Place::local(target), value }, right.span)?;
        }
        let falling = self.block;
        let merge = self.new_block();
        if operator == SourceOperator::LogicalAnd {
            self.seal(
                decision,
                TerminatorKind::Branch { condition, then_block: right_block, else_block: merge },
                e.span,
            );
        } else {
            self.seal(
                decision,
                TerminatorKind::Branch { condition, then_block: merge, else_block: right_block },
                e.span,
            );
        }
        if let Some(block) = falling {
            self.seal(block, TerminatorKind::Jump(merge), right.span);
        }
        self.block = Some(merge);
        Ok(Some(copy_operand(target)))
    }

    #[verifier::loop_isolation(false)]
    fn statements(&mut self, statements: &Vec<Statement>) -> (result: Result<(), &'static str>)
        requires
            old(self).ready(),
        ensures
            final(self).did(
                old(self),
                result,
                statements_from(old(self).context(), old(self)@, statements@, 0),
            ),
        decreases statements, 0int,
    {
        let ghost first = *self;
        let ghost c = self.context();
        let mut index: usize = 0;
        while index < statements.len() && self.block.is_some()
            invariant
                self.ready(),
                self.continues(&first),
                index <= statements@.len(),
                statements_from(c, self@, statements@, index as int) == statements_from(c, first@, statements@, 0),
            decreases statements@.len() - index,
        {
            self.statement(&statements[index])?;
            index += 1;
        }
        Ok(())
    }

    pub fn block(&mut self, block: &Block) -> (result: Result<bool, &'static str>)
        requires
            old(self).ready(),
        ensures
            final(self).gave(old(self), result, block_rule(old(self).context(), old(self)@, block)),
        decreases block, 0int,
    {
        let expected = self.falls_through(
            FlowSubject::Block(block.span),
            "block does not have exactly one flow summary",
        )?;
        self.statements(&block.statements)?;
        Ok(expected)
    }

    fn statement_block(&mut self, block: &Block) -> (result: Result<(), &'static str>)
        requires
            old(self).ready(),
        ensures
            final(self).did(old(self), result, statement_block_rule(old(self).context(), old(self)@, block)),
        decreases block, 1int,
    {
        let expected = self.block(block)?;
        if let Some(value) = &block.value {
            if self.block.is_some() {
                self.expression(value)?;
            }
        }
        if expected != self.block.is_some() {
            return Err("statement-block lowering contradicts its flow summary");
        }
        Ok(())
    }

    fn block_value(&mut self, block: &Block) -> (result: Result<Option<Operand>, &'static str>)
        requires
            old(self).ready(),
        ensures
            final(self).ends(old(self), result, block_value_rule(old(self).context(), old(self)@, block)),
        decreases block, 1int,
    {
        let expected = self.block(block)?;
        let value = if self.block.is_none() {
            None
        } else {
            match &block.value {
                Some(value) => self.expression(value)?,
                None => {
                    let unit = self.constant(self.analysis.types.unit(), ConstantValue::Unit)?;
                    Some(unit)
                },
            }
        };
        if expected != value.is_some() || expected != self.block.is_some() {
            return Err("expression-block lowering contradicts its flow summary");
        }
        Ok(value)
    }

    fn statement_body(&mut self, body: &StatementBody) -> (result: Result<(), &'static str>)
        requires
            old(self).ready(),
        ensures
            final(self).did(old(self), result, statement_body_rule(old(self).context(), old(self)@, body)),
        decreases body, 0int,
    {
        let expected = self.falls_through(
            FlowSubject::StatementBody(body.span),
            "statement body does not have exactly one flow summary",
        )?;
        match &body.kind {
            StatementBodyKind::Block(block) => self.statement_block(block)?,
            StatementBodyKind::Statement(statement) => self.statement(statement)?,
        }
        if expected != self.block.is_some() {
            return Err("statement-body lowering contradicts its flow summary");
        }
        Ok(())
    }

    fn expression_body(&mut self, body: &ExpressionBody) -> (result: Result<Option<Operand>, &'static str>)
        requires
            old(self).ready(),
        ensures
            final(self).ends(old(self), result, expression_body_rule(old(self).context(), old(self)@, body)),
        decreases body, 0int,
    {
        let expected = self.falls_through(
            FlowSubject::ExpressionBody(body.span),
            "expression body does not have exactly one flow summary",
        )?;
        let value = match &body.kind {
            ExpressionBodyKind::Expression(expression) => self.expression(expression)?,
            ExpressionBodyKind::Block(block) => self.block_value(block)?,
        };
        if expected != value.is_some() || expected != self.block.is_some() {
            return Err("expression-body lowering contradicts its flow summary");
        }
        Ok(value)
    }

    fn branch(
        &mut self,
        decision: BlockId,
        condition: Operand,
        tested: Span,
        condition_span: Span,
        body_span: Span,
    ) -> (result: Result<BlockId, &'static str>)
        ensures
            final(self).gave(
                old(self),
                result,
                branched(
                    old(self).context(),
                    old(self)@,
                    decision,
                    condition@,
                    tested,
                    condition_span,
                    body_span,
                ),
            ),
    {
        let body_block = self.new_block();
        let false_block = self.new_block();
        self.seal(
            decision,
            TerminatorKind::Branch { condition, then_block: body_block, else_block: false_block },
            condition_span,
        );
        self.block = Some(body_block);
        self.activate(tested, body_span)?;
        Ok(false_block)
    }

    fn conditional(&mut self, branch: &ConditionalStatementBranch) -> (result: Result<Option<BlockId>, &'static str>)
        requires
            old(self).ready(),
        ensures
            final(self).gave(old(self), result, condition_rule(old(self).context(), old(self)@, branch)),
        decreases branch, 0int,
    {
        let condition = match self.expression(&branch.condition)? {
            None => return Ok(None),
            Some(condition) => condition,
        };
        let decision = match self.block {
            None => return Err("conditional lost its condition block"),
            Some(decision) => decision,
        };
        let false_block = self.branch(
            decision,
            condition,
            strip(&branch.condition),
            branch.condition.span,
            branch.body.span,
        )?;
        self.statement_body(&branch.body)?;
        Ok(Some(false_block))
    }

    #[verifier::loop_isolation(false)]
    fn branches(&mut self, branches: &Vec<ConditionalStatementBranch>) -> (result: Result<
        (Vec<(BlockId, Span)>, bool),
        &'static str,
    >)
        requires
            old(self).ready(),
        ensures
            final(self).continues(old(self)),
            match branches_from(old(self).context(), old(self)@, branches@, 0, seq![]) {
                Ok((state, (paths, through))) => result is Ok && result->Ok_0.0@ == paths && result->Ok_0.1 == through
                    && final(self)@ == state,
                Err(fault) => result is Err && result->Err_0 == fault,
            },
        decreases branches, 0int,
    {
        let ghost first = *self;
        let ghost c = self.context();
        let mut paths: Vec<(BlockId, Span)> = Vec::new();
        assert(paths@ =~= seq![]);
        let mut index: usize = 0;
        while index < branches.len()
            invariant
                self.ready(),
                self.continues(&first),
                index <= branches@.len(),
                branches_from(c, self@, branches@, index as int, paths@) == branches_from(
                    c,
                    first@,
                    branches@,
                    0,
                    seq![],
                ),
            decreases branches@.len() - index,
        {
            let outer = copy_narrowings(&self.narrowings);
            match self.conditional(&branches[index])? {
                None => return Ok((paths, false)),
                Some(false_block) => {
                    self.take_path(&mut paths, branches[index].body.span);
                    self.narrowings = outer;
                    self.block = Some(false_block);
                },
            }
            index += 1;
        }
        Ok((paths, true))
    }

    fn else_body(&mut self, body: &Option<StatementBody>) -> (result: Result<(), &'static str>)
        requires
            old(self).ready(),
        ensures
            final(self).did(old(self), result, else_rule(old(self).context(), old(self)@, body)),
        decreases body, 0int,
    {
        match body {
            Some(body) => self.statement_body(body),
            None => Ok(()),
        }
    }

    #[verifier::spinoff_prover]
    fn if_statement(&mut self, statement: &Statement) -> (result: Result<(), &'static str>)
        requires
            old(self).ready(),
        ensures
            final(self).did(old(self), result, if_rule(old(self).context(), old(self)@, statement)),
        decreases statement, 0int,
    {
        let (branches, other) = match &statement.kind {
            StatementKind::If { branches, else_body } => (branches, else_body),
            _ => return Err("conditional lost its condition block"),
        };
        let enclosing = copy_narrowings(&self.narrowings);
        let (mut paths, through) = self.branches(branches)?;
        if through {
            self.else_body(other)?;
            let span = match other {
                Some(body) => body.span,
                None => statement.span,
            };
            let ghost before = *self;
            self.take_path(&mut paths, span);
            proof {
                lemma_merged_left(before@, paths@);
            }
        }
        self.merge(&paths);
        self.narrowings = enclosing;
        Ok(())
    }

    fn result_body(&mut self, body: &ExpressionBody, target: LocalId) -> (result: Result<bool, &'static str>)
        requires
            old(self).ready(),
        ensures
            final(self).gave(old(self), result, result_rule(old(self).context(), old(self)@, body, target)),
        decreases body, 1int,
    {
        match self.expression_body(body)? {
            None => Ok(false),
            Some(value) => {
                self.push(OperationKind::Assign { destination: Place::local(target), value }, body.span)?;
                Ok(true)
            },
        }
    }

    fn choice(&mut self, branch: &ConditionalExpressionBranch, target: LocalId) -> (result: Result<
        Option<(BlockId, bool)>,
        &'static str,
    >)
        requires
            old(self).ready(),
        ensures
            final(self).gave(old(self), result, choice_rule(old(self).context(), old(self)@, branch, target)),
        decreases branch, 0int,
    {
        let condition = match self.expression(&branch.condition)? {
            None => return Ok(None),
            Some(condition) => condition,
        };
        let decision = match self.block {
            None => return Err("if expression lost its condition block"),
            Some(decision) => decision,
        };
        let false_block = self.branch(
            decision,
            condition,
            strip(&branch.condition),
            branch.condition.span,
            branch.body.span,
        )?;
        let valued = self.result_body(&branch.body, target)?;
        Ok(Some((false_block, valued)))
    }

    #[verifier::loop_isolation(false)]
    fn choices(&mut self, branches: &Vec<ConditionalExpressionBranch>, target: LocalId) -> (result: Result<
        (Vec<(BlockId, Span)>, bool),
        &'static str,
    >)
        requires
            old(self).ready(),
        ensures
            final(self).continues(old(self)),
            match choices_from(old(self).context(), old(self)@, branches@, target, 0, seq![]) {
                Ok((state, (paths, through))) => result is Ok && result->Ok_0.0@ == paths && result->Ok_0.1 == through
                    && final(self)@ == state,
                Err(fault) => result is Err && result->Err_0 == fault,
            },
        decreases branches, 0int,
    {
        let ghost first = *self;
        let ghost c = self.context();
        let mut paths: Vec<(BlockId, Span)> = Vec::new();
        assert(paths@ =~= seq![]);
        let mut index: usize = 0;
        while index < branches.len()
            invariant
                self.ready(),
                self.continues(&first),
                index <= branches@.len(),
                choices_from(c, self@, branches@, target, index as int, paths@) == choices_from(
                    c,
                    first@,
                    branches@,
                    target,
                    0,
                    seq![],
                ),
            decreases branches@.len() - index,
        {
            let outer = copy_narrowings(&self.narrowings);
            match self.choice(&branches[index], target)? {
                None => return Ok((paths, false)),
                Some((false_block, valued)) => {
                    if valued {
                        self.take_path(&mut paths, branches[index].body.span);
                    }
                    self.narrowings = outer;
                    self.block = Some(false_block);
                },
            }
            index += 1;
        }
        Ok((paths, true))
    }

    #[verifier::spinoff_prover]
    fn if_expression(&mut self, e: &Expression) -> (result: Result<Option<Operand>, &'static str>)
        requires
            old(self).ready(),
        ensures
            final(self).ends(old(self), result, if_expression_rule(old(self).context(), old(self)@, e)),
        decreases e, 2int,
    {
        let (branches, other) = match &e.kind {
            ExpressionKind::If { branches, else_branch } => (branches, else_branch),
            _ => return Err("if expression lost its condition block"),
        };
        let enclosing = copy_narrowings(&self.narrowings);
        let ty = self.raw_type(e.span)?;
        let target = self.temporary(ty)?;
        let (mut paths, through) = self.choices(branches, target)?;
        if through {
            if self.result_body(other, target)? {
                let ghost before = *self;
                self.take_path(&mut paths, other.span);
                proof {
                    lemma_merged_left(before@, paths@);
                }
            }
        }
        let any = self.merge(&paths);
        self.narrowings = enclosing;
        if any {
            Ok(Some(copy_operand(target)))
        } else {
            Ok(None)
        }
    }

    #[verifier::spinoff_prover]
    fn while_loop(&mut self, statement: &Statement) -> (result: Result<(), &'static str>)
        requires
            old(self).ready(),
        ensures
            final(self).did(old(self), result, while_rule(old(self).context(), old(self)@, statement)),
        decreases statement, 0int,
    {
        let (condition, body) = match &statement.kind {
            StatementKind::While { condition, body } => (condition, body),
            _ => return Err("conditional lost its condition block"),
        };
        let condition_block = self.new_block();
        self.terminate(TerminatorKind::Jump(condition_block), statement.span)?;
        self.block = Some(condition_block);
        let value = match self.expression(condition)? {
            None => return Ok(()),
            Some(value) => value,
        };
        let body_block = self.new_block();
        let exit_block = self.new_block();
        self.terminate(
            TerminatorKind::Branch { condition: value, then_block: body_block, else_block: exit_block },
            condition.span,
        )?;
        let outer = copy_narrowings(&self.narrowings);
        self.enter_loop(
            LoopContext {
                source: statement.span,
                continue_target: condition_block,
                break_target: exit_block,
                cleanup: None,
            },
        );
        self.block = Some(body_block);
        self.activate(strip(condition), body.span)?;
        self.statement_body(body)?;
        self.close_loop(outer, condition_block, body.span)?;
        self.block = Some(exit_block);
        Ok(())
    }

    #[verifier::spinoff_prover]
    fn for_loop(&mut self, statement: &Statement) -> (result: Result<(), &'static str>)
        requires
            old(self).ready(),
        ensures
            final(self).did(old(self), result, for_rule(old(self).context(), old(self)@, statement)),
        decreases statement, 0int,
    {
        let (binding, iterable, body) = match &statement.kind {
            StatementKind::For { binding, iterable, body } => (binding, iterable, body),
            _ => return Err("non-for statement reached for-loop lowering"),
        };
        let (element, binding_type) = self.declare_element(binding.span, statement.span)?;
        let operand = match self.operand(iterable)? {
            None => return Ok(()),
            Some(operand) => operand,
        };
        let at = self.begin_iteration(binding_type, element, operand, iterable.span, statement.span)?;
        let outer = copy_narrowings(&self.narrowings);
        self.enter_iteration(&at, statement.span)?;
        self.statement_body(body)?;
        self.close_loop(outer, at.advance, body.span)?;
        self.end_iteration(at, statement.span)
    }

    fn arm(&mut self, arm: &SwitchArm) -> (result: Result<(), &'static str>)
        requires
            old(self).ready(),
        ensures
            final(self).did(old(self), result, arm_rule(old(self).context(), old(self)@, arm)),
        decreases arm, 0int,
    {
        self.statement_body(&arm.body)
    }

    #[verifier::loop_isolation(false)]
    #[verifier::spinoff_prover]
    fn arms(
        &mut self,
        arms: &Vec<SwitchArm>,
        switch: &SwitchResolution,
        union: &Operand,
        blocks: &Vec<BlockId>,
        outer: &Vec<Narrowing>,
    ) -> (result: Result<Vec<(BlockId, Span)>, &'static str>)
        requires
            old(self).ready(),
            blocks@.len() == arms@.len(),
            switch.arms@.len() == arms@.len(),
        ensures
            final(self).continues(old(self)),
            match arms_from(
                old(self).context(),
                old(self)@,
                arms@,
                *switch,
                union@,
                blocks@,
                outer@,
                0,
                seq![],
            ) {
                Ok((state, paths)) => result is Ok && result->Ok_0@ == paths && final(self)@ == state,
                Err(fault) => result is Err && result->Err_0 == fault,
            },
        decreases arms, 0int,
    {
        let ghost first = *self;
        let ghost c = self.context();
        let mut paths: Vec<(BlockId, Span)> = Vec::new();
        assert(paths@ =~= seq![]);
        let mut index: usize = 0;
        while index < arms.len()
            invariant
                self.ready(),
                self.continues(&first),
                index <= arms@.len(),
                arms_from(
                    c,
                    self@,
                    arms@,
                    *switch,
                    union@,
                    blocks@,
                    outer@,
                    index as int,
                    paths@,
                ) == arms_from(c, first@, arms@, *switch, union@, blocks@, outer@, 0, seq![]),
            decreases arms@.len() - index,
        {
            if switch.arms[index].arm != arms[index].span {
                return Err("switch arm resolution is out of source order");
            }
            self.narrowings = copy_narrowings(outer);
            self.block = Some(blocks[index]);
            self.narrow_arm(switch, union, index, arms[index].label.span)?;
            self.arm(&arms[index])?;
            self.take_path(&mut paths, arms[index].body.span);
            index += 1;
        }
        Ok(paths)
    }

    fn rest(
        &mut self,
        other: Option<BlockId>,
        body: &Option<StatementBody>,
        outer: &Vec<Narrowing>,
        paths: Vec<(BlockId, Span)>,
    ) -> (result: Result<Vec<(BlockId, Span)>, &'static str>)
        requires
            old(self).ready(),
        ensures
            final(self).continues(old(self)),
            match rest_rule(old(self).context(), old(self)@, other, body, outer@, paths@) {
                Ok((state, paths)) => result is Ok && result->Ok_0@ == paths && final(self)@ == state,
                Err(fault) => result is Err && result->Err_0 == fault,
            },
        decreases body, 1int,
    {
        let block = match other {
            None => return Ok(paths),
            Some(block) => block,
        };
        match body {
            None => Err("switch needs an else target but has no else body"),
            Some(body) => {
                let mut paths = paths;
                self.narrowings = copy_narrowings(outer);
                self.block = Some(block);
                self.statement_body(body)?;
                self.take_path(&mut paths, body.span);
                Ok(paths)
            },
        }
    }

    #[verifier::spinoff_prover]
    fn switch_statement(&mut self, statement: &Statement) -> (result: Result<(), &'static str>)
        requires
            old(self).ready(),
        ensures
            final(self).did(old(self), result, switch_rule(old(self).context(), old(self)@, statement)),
        decreases statement, 0int,
    {
        let (value, arms, other) = match &statement.kind {
            StatementKind::Switch { value, arms, else_body } => (value, arms, else_body),
            _ => return Err("switch does not have exactly one resolution"),
        };
        let semantic = self.semantic;
        let switch = match only_fact(&semantic.switches, statement.span) {
            None => return Err("switch does not have exactly one resolution"),
            Some(index) => &semantic.switches[index],
        };
        let union_type = self.expression_type(value.span)?;
        if switch.operand_union != union_type || switch.arms.len() != arms.len() {
            return Err("switch resolution contradicts its syntax or operand");
        }
        let union = match self.operand(value)? {
            None => return Ok(()),
            Some(union) => union,
        };
        let (blocks, rest) = self.dispatch(switch, &union, arms.len(), value.span)?;
        let outer = copy_narrowings(&self.narrowings);
        let paths = self.arms(arms, switch, &union, &blocks, &outer)?;
        let paths = self.rest(rest, other, &outer, paths)?;
        self.narrowings = outer;
        self.merge(&paths);
        Ok(())
    }

    fn return_statement(&mut self, value: &Option<Expression>, span: Span) -> (result: Result<(), &'static str>)
        requires
            old(self).ready(),
        ensures
            final(self).did(old(self), result, return_rule(old(self).context(), old(self)@, value, span)),
        decreases value, 0int,
    {
        let syntax = match value {
            Some(value) => Some(value.span),
            None => None,
        };
        let record = self.check_return(syntax, span)?;
        let returned = match value {
            Some(value) => match self.expression(value)? {
                None => return Ok(()),
                Some(value) => value,
            },
            None => self.unit_return(record, span)?,
        };
        self.clean_up(span)?;
        self.terminate(TerminatorKind::Return(returned), span)
    }

    fn find_suffix(suffixes: &Vec<AssignmentTargetSuffix>, span: Span) -> (result: Option<usize>)
        ensures
            match result {
                Some(index) => suffix_from(suffixes@, span, 0) == Some(index as int) && index < suffixes@.len(),
                None => suffix_from(suffixes@, span, 0) is None,
            },
    {
        let mut index: usize = 0;
        while index < suffixes.len()
            invariant
                index <= suffixes@.len(),
                suffix_from(suffixes@, span, index as int) == suffix_from(suffixes@, span, 0),
            decreases suffixes@.len() - index,
        {
            if suffixes[index].span == span {
                return Some(index);
            }
            index += 1;
        }
        None
    }

    fn suffix(&mut self, suffix: &AssignmentTargetSuffix) -> (result: Result<Option<LocalId>, &'static str>)
        requires
            old(self).ready(),
        ensures
            final(self).gave(old(self), result, suffix_rule(old(self).context(), old(self)@, suffix)),
        decreases suffix, 0int,
    {
        match &suffix.kind {
            AssignmentTargetSuffixKind::Member(_) => Err("index path step has no index syntax"),
            AssignmentTargetSuffixKind::Index(index) => match self.expression(index)? {
                None => Ok(None),
                Some(value) => match self.materialize(value, index.span)? {
                    Operand::Copy(place) => Ok(Some(place.local)),
                    Operand::Constant(_) => Err("assignment index did not materialize"),
                },
            },
        }
    }

    fn index_local(&mut self, suffixes: &Vec<AssignmentTargetSuffix>, span: Span) -> (result: Result<
        Option<LocalId>,
        &'static str,
    >)
        requires
            old(self).ready(),
        ensures
            final(self).gave(old(self), result, index_rule(old(self).context(), old(self)@, suffixes@, span)),
        decreases suffixes, 0int,
    {
        match Self::find_suffix(suffixes, span) {
            None => Err("index path step has no index syntax"),
            Some(index) => self.suffix(&suffixes[index]),
        }
    }

    #[verifier::loop_isolation(false)]
    #[verifier::spinoff_prover]
    fn steps(&mut self, suffixes: &Vec<AssignmentTargetSuffix>, steps: &Vec<AccessPathStep>, place: Place) -> (result:
        Result<Option<Place>, &'static str>)
        requires
            old(self).ready(),
        ensures
            final(self).continues(old(self)),
            match steps_from(old(self).context(), old(self)@, suffixes@, steps@, place@, 0) {
                Ok((state, place)) => result is Ok && final(self)@ == state && match place {
                    Some(place) => result->Ok_0 is Some && (result->Ok_0)->0@ == place,
                    None => result->Ok_0 is None,
                },
                Err(fault) => result is Err && result->Err_0 == fault,
            },
        decreases suffixes, 1int,
    {
        let ghost first = *self;
        let ghost c = self.context();
        let ghost start = place@;
        let mut place = place;
        let mut index: usize = 0;
        while index < steps.len()
            invariant
                self.ready(),
                self.continues(&first),
                index <= steps@.len(),
                steps_from(c, self@, suffixes@, steps@, place@, index as int) == steps_from(
                    c,
                    first@,
                    suffixes@,
                    steps@,
                    start,
                    0,
                ),
            decreases steps@.len() - index,
        {
            match steps[index] {
                AccessPathStep::StructMember { declaration, field, storage, .. } => {
                    let projection = self.struct_projection(declaration, field, storage)?;
                    place = project(place, projection);
                },
                AccessPathStep::TupleMember { declaration, position, .. } => {
                    let projection = self.tuple_projection(declaration, position)?;
                    place = project(place, projection);
                },
                AccessPathStep::ListIndex { suffix, .. } => match self.index_local(suffixes, suffix)? {
                    None => return Ok(None),
                    Some(local) => {
                        let failure = self.failure(suffix, FailureOperation::ListIndex)?;
                        place = project(place, Projection::ListIndex { index: local, failure });
                    },
                },
                AccessPathStep::MapIndex { suffix, .. } => match self.index_local(suffixes, suffix)? {
                    None => return Ok(None),
                    Some(local) => {
                        let failure = self.failure(suffix, FailureOperation::MapIndex)?;
                        place = project(place, Projection::MapIndex { key: local, failure });
                    },
                },
            }
            index += 1;
        }
        Ok(Some(place))
    }

    fn target_place(
        &mut self,
        target: &AssignmentTarget,
        steps: &Vec<AccessPathStep>,
        root: BindingId,
    ) -> (result: Result<
        Option<Place>,
        &'static str,
    >)
        requires
            old(self).ready(),
        ensures
            final(self).continues(old(self)),
            match place_rule(old(self).context(), old(self)@, target, steps@, root) {
                Ok((state, place)) => result is Ok && final(self)@ == state && match place {
                    Some(place) => result->Ok_0 is Some && (result->Ok_0)->0@ == place,
                    None => result->Ok_0 is None,
                },
                Err(fault) => result is Err && result->Err_0 == fault,
            },
        decreases target, 0int,
    {
        proof {
            reveal_with_fuel(place_rule, 1);
        }
        let place = self.root_place(root, steps.len() == 0, target.root.span)?;
        self.steps(&target.suffixes, steps, place)
    }

    #[verifier::spinoff_prover]
    fn assigned(
        &mut self,
        place: &Place,
        state: TypeState,
        operator: AssignmentOperator,
        operator_span: Span,
        value: &Expression,
        target: Span,
        span: Span,
    ) -> (result: Result<Option<Operand>, &'static str>)
        requires
            old(self).ready(),
        ensures
            final(self).ends(
                old(self),
                result,
                assigned_rule(
                    old(self).context(),
                    old(self)@,
                    place@,
                    state,
                    operator,
                    operator_span,
                    value,
                    target,
                    span,
                ),
            ),
        decreases value, 6int,
    {
        proof {
            reveal_with_fuel(assigned_rule, 1);
        }
        if operator == AssignmentOperator::Assign {
            return self.expression(value);
        }
        let ty = match state {
            TypeState::Resolved(ty) => ty,
            _ => return Err("compound assignment target type is unresolved"),
        };
        let before = self.temporary(ty)?;
        self.push(OperationKind::Copy { destination: before, operand: Operand::Copy(place.duplicate()) }, target)?;
        let right = match self.operand(value)? {
            None => return Ok(None),
            Some(right) => right,
        };
        let operator = map_assignment(operator)?;
        let value = self.checked_binary(ty, operator, copy_operand(before), right, operator_span, span)?;
        Ok(Some(value))
    }

    #[verifier::spinoff_prover]
    fn assignment(&mut self, statement: &Statement) -> (result: Result<(), &'static str>)
        requires
            old(self).ready(),
        ensures
            final(self).did(old(self), result, assignment_rule(old(self).context(), old(self)@, statement)),
        decreases statement, 0int,
    {
        let (target, operator, operator_span, value) = match &statement.kind {
            StatementKind::Assignment { target, operator, operator_span, value } => (
                target,
                *operator,
                *operator_span,
                value,
            ),
            _ => return Err("assignment target fact is missing"),
        };
        let analysis = self.analysis;
        let (index, root) = self.authorize(target)?;
        let annotation = &analysis.assignment_targets[index];
        let direct = annotation.steps.len() == 0;
        let place = match self.target_place(target, &annotation.steps, root)? {
            None => return Ok(()),
            Some(place) => place,
        };
        let assigned = match self.assigned(
            &place,
            annotation.state,
            operator,
            operator_span,
            value,
            target.span,
            statement.span,
        )? {
            None => return Ok(()),
            Some(assigned) => assigned,
        };
        self.push(OperationKind::Assign { destination: place, value: assigned }, statement.span)?;
        if direct {
            self.widen(root);
        }
        Ok(())
    }

    #[verifier::spinoff_prover]
    fn local_declaration(&mut self, name: Span, initializer: &Expression, span: Span) -> (result: Result<
        (),
        &'static str,
    >)
        requires
            old(self).ready(),
        ensures
            final(self).did(
                old(self),
                result,
                local_rule(old(self).context(), old(self)@, name, initializer, span),
            ),
        decreases initializer, 5int,
    {
        let binding = match self.binding_of(BindingNode::Local(span)) {
            None => return Err("local declaration lacks a binding identity"),
            Some(binding) => binding,
        };
        match self.binding_state(binding) {
            TypeState::Never => match self.expression(initializer)? {
                None => Ok(()),
                Some(_) => Err("never-typed local initializer did not diverge"),
            },
            TypeState::Resolved(ty) => {
                let ty = self.ty(ty)?;
                let text = self.identifier_text(name);
                let local = self.declare(ty, Some(text), LocalOrigin::Binding);
                self.bind(binding, local);
                match self.expression(initializer)? {
                    None => Err("value-typed local initializer diverged"),
                    Some(value) => self.push(
                        OperationKind::Assign { destination: Place::local(local), value },
                        span,
                    ),
                }
            },
            _ => Err("local binding has no resolved type"),
        }
    }

    #[verifier::spinoff_prover]
    fn statement(&mut self, statement: &Statement) -> (result: Result<(), &'static str>)
        requires
            old(self).ready(),
        ensures
            final(self).did(old(self), result, statement_rule(old(self).context(), old(self)@, statement)),
        decreases statement, 1int,
    {
        let expected = self.falls_through(
            FlowSubject::Statement(statement.span),
            "statement does not have exactly one flow summary",
        )?;
        match &statement.kind {
            StatementKind::Local { name, initializer, .. } => self.local_declaration(
                name.span,
                initializer,
                statement.span,
            )?,
            StatementKind::Assignment { .. } => self.assignment(statement)?,
            StatementKind::Expression(expression) => {
                self.expression(expression)?;
            },
            StatementKind::Return(value) => self.return_statement(value, statement.span)?,
            StatementKind::Break => self.loop_control(true, statement.span)?,
            StatementKind::Continue => self.loop_control(false, statement.span)?,
            StatementKind::If { .. } => self.if_statement(statement)?,
            StatementKind::While { .. } => self.while_loop(statement)?,
            StatementKind::For { .. } => self.for_loop(statement)?,
            StatementKind::Switch { .. } => self.switch_statement(statement)?,
            StatementKind::Block(block) => self.statement_block(block)?,
        }
        if expected != self.block.is_some() {
            return Err("statement lowering contradicts its flow summary");
        }
        Ok(())
    }
}

proof fn lemma_joined_left(s: State, paths: Seq<(BlockId, Span)>, merge: BlockId, from: int)
    ensures
        joined(left(s), paths, merge, from) == left(joined(s, paths, merge, from)),
    decreases paths.len() - from,
{
    if 0 <= from < paths.len() {
        reveal(seal);
        reveal(locate);
        let sealed = seal(s, paths[from].0, TerminatorView::Jump(merge), paths[from].1);
        assert(seal(left(s), paths[from].0, TerminatorView::Jump(merge), paths[from].1) == left(sealed));
        lemma_joined_left(sealed, paths, merge, from + 1);
    }
}

/// Where control was does not matter to paths that meet.
proof fn lemma_merged_left(s: State, paths: Seq<(BlockId, Span)>)
    ensures
        merged(left(s), paths) == merged(s, paths),
{
    reveal(merged);
    reveal(open_block);
    if paths.len() > 0 {
        let (opened, merge) = open_block(s);
        assert(open_block(left(s)).0 == left(opened));
        lemma_joined_left(opened, paths, merge, 0);
    }
}

} // verus!
