//! The steps of lowering that do not look at syntax.

use crate::analysis::{
    self, BindingId, BindingNode, CallTarget, CallableId, ConstructorKind, Fact, IntrinsicId, LiteralValue,
    MemberStorage, ProjectionKind, ResolvedType, TypeDeclarationId, TypeDefinitionKind, TypeId as SourceType,
    TypeState, UnionAlternative, alternative_payload, count_facts, latest_fact,
};
use crate::ast::{
    AssignmentOperator, BinaryOperator as SourceOperator, PrimitiveType, UnaryOperator as SourceUnary,
};
use crate::ir::{
    self, Aggregate, AlternativeId, BinaryOperator, BlockId, BuiltinMethod, Constant, ConstantValue,
    DefinitionId, DefinitionLayout, FailureOperation, FailureSiteId, FieldId, FunctionId, IntegerOperation,
    Intrinsic, LocalId, LocalOrigin, NumericConversion, Operand, OperandView, OperationKind, Place, Projection,
    RuntimeCheck, TerminatorKind, Type, TypeId, UnaryOperator, lemma_first_index, lemma_no_index,
};
use crate::lowering::builder::{Builder, copy_bytes, optional_view};
use crate::lowering::model::{
    Narrowing, State, aggregate_view, field_views, layout_view, left, operand_views, value_of,
};
use crate::lowering::rules::{
    activated, aggregate, alternative_id, alternatives_of, arm_block, arm_from, arm_narrowed, attempted,
    attempted_from, behind, binary, binary_of, bind, binding_state, bound, called, checked, checked_binary,
    cleaned, compound_of, constant, constructed, conversion_of, converted, copied, definition_id, errored,
    exits_from, failure_of, field_count, field_id, filled, flow_of, indexed, inject, injected, invoked,
    is_primitive, is_smallest, is_temporary, joined, joined_union, literal_constant, local_of, materialized,
    member_place, merged, method_of, narrowed, narrowed_before, negated, nominal_from, only, open_blocks,
    operand_type, placed, printed, projected, projected_from, raw_type, source_type, stabilized, storage_of,
    struct_projection, succeeded, successes_count, targets_from, test_before, text_at, try_type,
    tuple_projection, unary_of, value_type, widened, with_path, without,
};
use crate::semantic::{FlowSubject, SwitchResolution, TryAction, TryResolution};
use crate::semantic::flow::FallthroughKind;
use crate::semantic::flow_rules::introduced_from;
use crate::semantic::handoff::{count_records, find_record};
use crate::source::Span;
use crate::text::{boundary, slice};
use vstd::prelude::*;
use vstd::string::*;
use vstd::utf8::*;

verus! {

/// The index of the only fact about a node.
pub fn only_fact<T: Fact>(facts: &Vec<T>, node: Span) -> (result: Option<usize>)
    ensures
        match result {
            Some(index) => only(facts@, node) == Some(index as int) && index < facts@.len(),
            None => only(facts@, node) is None,
        },
{
    proof {
        reveal(only);
    }
    if count_facts(facts, node) != 1 {
        return None;
    }
    latest_fact(facts, node)
}

pub fn copy_operand(local: LocalId) -> (result: Operand)
    ensures
        result@ == value_of(local),
{
    Operand::Copy(Place::local(local))
}

pub fn map_storage(storage: MemberStorage) -> (result: ir::MemberStorage)
    ensures
        result == storage_of(storage),
{
    match storage {
        MemberStorage::Inline => ir::MemberStorage::Inline,
        MemberStorage::Referenced => ir::MemberStorage::Referenced,
    }
}

pub fn map_unary(operator: SourceUnary) -> (result: UnaryOperator)
    ensures
        result == unary_of(operator),
{
    match operator {
        SourceUnary::LogicalNot => UnaryOperator::LogicalNot,
        SourceUnary::BitwiseNot => UnaryOperator::BitwiseNot,
        SourceUnary::Plus => UnaryOperator::Plus,
        SourceUnary::Minus => UnaryOperator::Minus,
    }
}

pub fn map_binary(operator: SourceOperator) -> (result: Result<BinaryOperator, &'static str>)
    ensures
        result == binary_of(operator),
{
    match operator {
        SourceOperator::LogicalOr | SourceOperator::LogicalAnd => Err(
            "short-circuit operator reached ordinary binary lowering",
        ),
        SourceOperator::BitwiseOr => Ok(BinaryOperator::BitwiseOr),
        SourceOperator::BitwiseXor => Ok(BinaryOperator::BitwiseXor),
        SourceOperator::BitwiseAnd => Ok(BinaryOperator::BitwiseAnd),
        SourceOperator::Equal => Ok(BinaryOperator::Equal),
        SourceOperator::NotEqual => Ok(BinaryOperator::NotEqual),
        SourceOperator::Less => Ok(BinaryOperator::Less),
        SourceOperator::LessEqual => Ok(BinaryOperator::LessEqual),
        SourceOperator::Greater => Ok(BinaryOperator::Greater),
        SourceOperator::GreaterEqual => Ok(BinaryOperator::GreaterEqual),
        SourceOperator::In => Ok(BinaryOperator::In),
        SourceOperator::ShiftLeft => Ok(BinaryOperator::ShiftLeft),
        SourceOperator::ShiftRight => Ok(BinaryOperator::ShiftRight),
        SourceOperator::Add => Ok(BinaryOperator::Add),
        SourceOperator::Subtract => Ok(BinaryOperator::Subtract),
        SourceOperator::Multiply => Ok(BinaryOperator::Multiply),
        SourceOperator::Divide => Ok(BinaryOperator::Divide),
        SourceOperator::Remainder => Ok(BinaryOperator::Remainder),
    }
}

pub fn map_assignment(operator: AssignmentOperator) -> (result: Result<BinaryOperator, &'static str>)
    ensures
        result == compound_of(operator),
{
    match operator {
        AssignmentOperator::Assign => Err("simple assignment reached compound lowering"),
        AssignmentOperator::Add => Ok(BinaryOperator::Add),
        AssignmentOperator::Subtract => Ok(BinaryOperator::Subtract),
        AssignmentOperator::Multiply => Ok(BinaryOperator::Multiply),
        AssignmentOperator::Divide => Ok(BinaryOperator::Divide),
        AssignmentOperator::Remainder => Ok(BinaryOperator::Remainder),
        AssignmentOperator::BitwiseAnd => Ok(BinaryOperator::BitwiseAnd),
        AssignmentOperator::BitwiseOr => Ok(BinaryOperator::BitwiseOr),
        AssignmentOperator::BitwiseXor => Ok(BinaryOperator::BitwiseXor),
        AssignmentOperator::ShiftLeft => Ok(BinaryOperator::ShiftLeft),
        AssignmentOperator::ShiftRight => Ok(BinaryOperator::ShiftRight),
    }
}

pub fn map_builtin(method: analysis::BuiltinMethod) -> (result: BuiltinMethod)
    ensures
        result == method_of(method),
{
    match method {
        analysis::BuiltinMethod::ListAppend => BuiltinMethod::ListAppend,
        analysis::BuiltinMethod::ListRemoveIndex => BuiltinMethod::ListRemoveIndex,
        analysis::BuiltinMethod::ListLen => BuiltinMethod::ListLen,
        analysis::BuiltinMethod::MapRemoveKey => BuiltinMethod::MapRemoveKey,
        analysis::BuiltinMethod::MapLen => BuiltinMethod::MapLen,
        analysis::BuiltinMethod::StrLen => BuiltinMethod::StrLen,
    }
}

fn is_boundary(bytes: &[u8], offset: usize) -> (result: bool)
    requires
        offset <= bytes@.len(),
    ensures
        result == boundary(bytes@, offset as int),
{
    offset == bytes.len() || !(bytes[offset] >= 0x80 && bytes[offset] <= 0xBF)
}

/// The text of a span of the source.
pub fn source_text(analysis: &analysis::Analysis, span: Span) -> (result: String)
    ensures
        result@ == text_at(analysis.source, span),
{
    proof {
        reveal(text_at);
    }
    let bytes = analysis.source.text.as_str().as_bytes();
    if span.start > span.end || span.end > bytes.len() || !is_boundary(bytes, span.start) || !is_boundary(
        bytes,
        span.end,
    ) {
        let empty = String::new();
        assert(empty@ =~= seq![]);
        return empty;
    }
    slice(analysis.source.text.as_str(), span.start, span.end).to_owned()
}

impl<'a> Builder<'a> {
    pub fn falls_through(&self, subject: FlowSubject, fault: &'static str) -> (result: Result<bool, &'static str>)
        ensures
            result == flow_of(self.context(), subject, fault),
    {
        proof {
            reveal(flow_of);
        }
        match find_record(&self.semantic.flow.summaries, subject) {
            Some(index) => if count_records(&self.semantic.flow.summaries, subject) == 1 {
                Ok(self.semantic.flow.summaries[index].summary.fallthrough != FallthroughKind::Never)
            } else {
                Err(fault)
            },
            None => Err(fault),
        }
    }

    pub fn identifier_text(&self, span: Span) -> (result: String)
        ensures
            result@ == text_at(self.analysis.source, span),
    {
        source_text(self.analysis, span)
    }

    pub fn expression_type(&self, expression: Span) -> (result: Result<SourceType, &'static str>)
        ensures
            result == value_type(self.context(), expression),
    {
        match self.analysis.expression_state(expression) {
            Some(TypeState::Resolved(ty)) => Ok(ty),
            _ => Err("expression lacks a resolved value type"),
        }
    }

    pub fn raw_type(&self, expression: Span) -> (result: Result<SourceType, &'static str>)
        ensures
            result == raw_type(self.context(), expression),
    {
        proof {
            reveal(raw_type);
        }
        match self.analysis.union_injection(expression) {
            Some(injection) => Ok(alternative_payload(&injection.alternative)),
            None => self.expression_type(expression),
        }
    }

    pub fn is_primitive(&self, ty: SourceType, primitive: PrimitiveType) -> (result: bool)
        ensures
            result == is_primitive(self.context(), ty, primitive),
    {
        if self.analysis.types.contains(ty) {
            match self.analysis.types.get(ty) {
                ResolvedType::Primitive(found) => *found == primitive,
                _ => false,
            }
        } else {
            false
        }
    }

    pub fn constant(&self, ty: SourceType, value: ConstantValue) -> (result: Result<Operand, &'static str>)
        ensures
            match constant(self.context(), ty, value@) {
                Ok(operand) => result is Ok && result->Ok_0@ == operand,
                Err(fault) => result == Err::<Operand, &'static str>(fault),
            },
    {
        proof {
            reveal(constant);
        }
        let ty = self.ty(ty)?;
        Ok(Operand::Constant(Constant { ty, value }))
    }

    pub fn literal_constant(&self, expression: Span) -> (result: Result<Operand, &'static str>)
        ensures
            match literal_constant(self.context(), expression) {
                Ok(operand) => result is Ok && result->Ok_0@ == operand,
                Err(fault) => result == Err::<Operand, &'static str>(fault),
            },
    {
        proof {
            reveal(literal_constant);
        }
        let value = match latest_fact(&self.analysis.literals, expression) {
            None => return Err("literal fact is missing"),
            Some(index) => match &self.analysis.literals[index].value {
                LiteralValue::Integer(value) => {
                    if *value > 0x7FFF_FFFF_FFFF_FFFF {
                        return Err("positive integer literal exceeds signed int range");
                    }
                    ConstantValue::Integer(*value as i64)
                },
                LiteralValue::Float(bits) => ConstantValue::Float(*bits),
                LiteralValue::String(bytes) => ConstantValue::String(copy_bytes(bytes)),
                LiteralValue::Character(byte) => ConstantValue::Character(*byte),
                LiteralValue::Boolean(value) => ConstantValue::Boolean(*value),
            },
        };
        let ty = self.raw_type(expression)?;
        self.constant(ty, value)
    }

    pub fn is_smallest(&self, expression: Span) -> (result: bool)
        ensures
            result == is_smallest(self.context(), expression),
    {
        proof {
            reveal(is_smallest);
        }
        match latest_fact(&self.analysis.literals, expression) {
            Some(index) => match &self.analysis.literals[index].value {
                LiteralValue::Integer(value) => *value == 0x8000_0000_0000_0000,
                _ => false,
            },
            None => false,
        }
    }

    pub fn aggregate(&mut self, expression: Span, made: Aggregate) -> (result: Result<Operand, &'static str>)
        ensures
            final(self).yields(
                old(self),
                result,
                aggregate(old(self).context(), old(self)@, expression, aggregate_view(made)),
            ),
    {
        proof {
            reveal(aggregate);
        }
        let ty = self.raw_type(expression)?;
        let destination = self.temporary(ty)?;
        self.push(OperationKind::Aggregate { destination, aggregate: made }, expression)?;
        Ok(copy_operand(destination))
    }

    fn projected(&self, ty: TypeId, projection: Projection) -> (result: Result<TypeId, &'static str>)
        ensures
            result == projected(self.context(), ty, projection),
    {
        match projection {
            Projection::StructField { definition, field, .. } => {
                if definition.0 >= self.program.definitions.len() {
                    return Err("struct projection selects a non-struct");
                }
                proof {
                    assert(self.context().definitions[definition.0 as int].layout == layout_view(
                        self.program.definitions@[definition.0 as int].layout,
                    ));
                }
                match &self.program.definitions[definition.0].layout {
                    DefinitionLayout::Struct(fields) => if field.0 < fields.len() {
                        Ok(fields[field.0].ty)
                    } else {
                        Err("invalid projected struct field")
                    },
                    _ => Err("struct projection selects a non-struct"),
                }
            },
            Projection::TupleField { definition, field } => {
                if definition.0 >= self.program.definitions.len() {
                    return Err("tuple projection selects a non-tuple");
                }
                proof {
                    assert(self.context().definitions[definition.0 as int].layout == layout_view(
                        self.program.definitions@[definition.0 as int].layout,
                    ));
                }
                match &self.program.definitions[definition.0].layout {
                    DefinitionLayout::Tuple(fields) => if field.0 < fields.len() {
                        Ok(fields[field.0])
                    } else {
                        Err("invalid projected tuple field")
                    },
                    _ => Err("tuple projection selects a non-tuple"),
                }
            },
            Projection::ListIndex { .. } => {
                if ty.0 >= self.program.types.len() {
                    return Err("list projection selects a non-list");
                }
                proof {
                    assert(self.context().program_types[ty.0 as int] == self.program.types@[ty.0 as int]@);
                }
                match &self.program.types[ty.0] {
                    Type::List(element) => Ok(*element),
                    _ => Err("list projection selects a non-list"),
                }
            },
            Projection::MapIndex { .. } => {
                if ty.0 >= self.program.types.len() {
                    return Err("map projection selects a non-map");
                }
                proof {
                    assert(self.context().program_types[ty.0 as int] == self.program.types@[ty.0 as int]@);
                }
                match &self.program.types[ty.0] {
                    Type::Mapping { value, .. } => Ok(*value),
                    _ => Err("map projection selects a non-map"),
                }
            },
        }
    }

    #[verifier::loop_isolation(false)]
    fn operand_type(&self, operand: &Operand) -> (result: Result<TypeId, &'static str>)
        ensures
            result == operand_type(self.context(), self@, operand@),
    {
        match operand {
            Operand::Constant(constant) => Ok(constant.ty),
            Operand::Copy(place) => {
                if place.local.0 >= self.function.locals.len() {
                    return Err("invalid local in operand");
                }
                let mut ty = self.function.locals[place.local.0].ty;
                let mut index: usize = 0;
                while index < place.projections.len()
                    invariant
                        index <= place.projections@.len(),
                        projected_from(self.context(), ty, place.projections@, index as int) == operand_type(
                            self.context(),
                            self@,
                            OperandView::Copy(place@),
                        ),
                    decreases place.projections@.len() - index,
                {
                    ty = self.projected(ty, place.projections[index])?;
                    index += 1;
                }
                Ok(ty)
            },
        }
    }

    #[verifier::loop_isolation(false)]
    pub fn source_type(&self, operand: &Operand) -> (result: Result<SourceType, &'static str>)
        ensures
            result == source_type(self.context(), self@, operand@),
    {
        proof {
            reveal(source_type);
        }
        let ty = self.operand_type(operand)?;
        let mut index: usize = 0;
        while index < self.types.len()
            invariant
                index <= self.types@.len(),
                forall|i: int| 0 <= i < index ==> #[trigger] self.types@[i] != Some(ty),
            decreases self.types@.len() - index,
        {
            if let Some(found) = self.types[index] {
                if found == ty {
                    proof {
                        lemma_first_index(self.types@, Some(ty), index as int);
                    }
                    return Ok(SourceType(index));
                }
            }
            index += 1;
        }
        proof {
            lemma_no_index(self.types@, Some(ty));
        }
        Err("IR operand type has no frontend mapping")
    }

    pub fn is_temporary(&self, operand: &Operand) -> (result: bool)
        ensures
            result == is_temporary(self@, operand@),
    {
        match operand {
            Operand::Copy(place) => place.projections.len() == 0 && place.local.0 < self.function.locals.len()
                && self.function.locals[place.local.0].origin == LocalOrigin::Temporary,
            Operand::Constant(_) => false,
        }
    }

    fn copied(&mut self, operand: Operand, span: Span) -> (result: Result<Operand, &'static str>)
        ensures
            final(self).yields(old(self), result, copied(old(self).context(), old(self)@, operand@, span)),
    {
        proof {
            reveal(copied);
        }
        let ty = self.source_type(&operand)?;
        let destination = self.temporary(ty)?;
        self.push(OperationKind::Copy { destination, operand }, span)?;
        Ok(copy_operand(destination))
    }

    pub fn stabilize(&mut self, operand: Operand, span: Span) -> (result: Result<Operand, &'static str>)
        ensures
            final(self).yields(old(self), result, stabilized(old(self).context(), old(self)@, operand@, span)),
    {
        proof {
            reveal(stabilized);
        }
        let constant = match &operand {
            Operand::Constant(_) => true,
            Operand::Copy(_) => false,
        };
        if constant || self.is_temporary(&operand) {
            return Ok(operand);
        }
        self.copied(operand, span)
    }

    pub fn materialize(&mut self, operand: Operand, span: Span) -> (result: Result<Operand, &'static str>)
        ensures
            final(self).yields(old(self), result, materialized(old(self).context(), old(self)@, operand@, span)),
    {
        proof {
            reveal(materialized);
        }
        if self.is_temporary(&operand) {
            return Ok(operand);
        }
        self.copied(operand, span)
    }

    fn checked(
        &mut self,
        operator: BinaryOperator,
        is_int: bool,
        left: &Operand,
        right: &Operand,
        failure: FailureSiteId,
        span: Span,
    ) -> (result: Result<(), &'static str>)
        ensures
            final(self).did(
                old(self),
                result,
                checked(old(self)@, operator, is_int, left@, right@, failure, span),
            ),
    {
        let overflow = match operator {
            BinaryOperator::Add => Some(IntegerOperation::Add),
            BinaryOperator::Subtract => Some(IntegerOperation::Subtract),
            BinaryOperator::Multiply => Some(IntegerOperation::Multiply),
            _ => None,
        };
        match overflow {
            Some(operation) => {
                if is_int {
                    self.push(
                        OperationKind::Check(
                            RuntimeCheck::IntegerOverflow {
                                operation,
                                left: left.duplicate(),
                                right: right.duplicate(),
                                failure,
                            },
                        ),
                        span,
                    )?;
                }
            },
            None => match operator {
                BinaryOperator::Divide => self.push(
                    OperationKind::Check(
                        RuntimeCheck::Division { left: left.duplicate(), right: right.duplicate(), failure },
                    ),
                    span,
                )?,
                BinaryOperator::Remainder => self.push(
                    OperationKind::Check(
                        RuntimeCheck::Remainder { left: left.duplicate(), right: right.duplicate(), failure },
                    ),
                    span,
                )?,
                BinaryOperator::ShiftLeft | BinaryOperator::ShiftRight => self.push(
                    OperationKind::Check(RuntimeCheck::ShiftRange { amount: right.duplicate(), failure }),
                    span,
                )?,
                _ => {},
            },
        }
        if operator == BinaryOperator::ShiftLeft && is_int {
            self.push(
                OperationKind::Check(
                    RuntimeCheck::IntegerOverflow {
                        operation: IntegerOperation::ShiftLeft,
                        left: left.duplicate(),
                        right: right.duplicate(),
                        failure,
                    },
                ),
                span,
            )?;
        }
        Ok(())
    }

    fn binary(
        &mut self,
        result: SourceType,
        operator: BinaryOperator,
        left: Operand,
        right: Operand,
        span: Span,
    ) -> (operand:
        Result<Operand, &'static str>)
        ensures
            final(self).yields(
                old(self),
                operand,
                binary(old(self).context(), old(self)@, result, operator, left@, right@, span),
            ),
    {
        let destination = self.temporary(result)?;
        self.push(OperationKind::Binary { destination, operator, left, right }, span)?;
        Ok(copy_operand(destination))
    }

    fn failure_of(operator: BinaryOperator, is_int: bool, is_float: bool) -> (result: Option<FailureOperation>)
        ensures
            result == failure_of(operator, is_int, is_float),
    {
        if is_int {
            match operator {
                BinaryOperator::Add => Some(FailureOperation::IntegerAdd),
                BinaryOperator::Subtract => Some(FailureOperation::IntegerSubtract),
                BinaryOperator::Multiply => Some(FailureOperation::IntegerMultiply),
                BinaryOperator::Divide => Some(FailureOperation::IntegerDivision),
                BinaryOperator::Remainder => Some(FailureOperation::IntegerRemainder),
                BinaryOperator::ShiftLeft => Some(FailureOperation::ShiftLeft),
                BinaryOperator::ShiftRight => Some(FailureOperation::ShiftRight),
                _ => None,
            }
        } else if is_float {
            match operator {
                BinaryOperator::Add => Some(FailureOperation::FloatAdd),
                BinaryOperator::Subtract => Some(FailureOperation::FloatSubtract),
                BinaryOperator::Multiply => Some(FailureOperation::FloatMultiply),
                BinaryOperator::Divide => Some(FailureOperation::FloatDivision),
                _ => None,
            }
        } else {
            None
        }
    }

    pub fn checked_binary(
        &mut self,
        result: SourceType,
        operator: BinaryOperator,
        left: Operand,
        right: Operand,
        failure_span: Span,
        operation_span: Span,
    ) -> (operand: Result<Operand, &'static str>)
        requires
            old(self).ready(),
        ensures
            final(self).yields(
                old(self),
                operand,
                checked_binary(
                    old(self).context(),
                    old(self)@,
                    result,
                    operator,
                    left@,
                    right@,
                    failure_span,
                    operation_span,
                ),
            ),
    {
        proof {
            reveal(checked_binary);
        }
        let is_int = self.is_primitive(result, PrimitiveType::Int);
        let is_float = self.is_primitive(result, PrimitiveType::Float);
        match Self::failure_of(operator, is_int, is_float) {
            None => self.binary(result, operator, left, right, operation_span),
            Some(operation) => {
                let failure = self.failure(failure_span, operation)?;
                self.checked(operator, is_int, &left, &right, failure, failure_span)?;
                let operand = self.binary(result, operator, left, right, operation_span)?;
                let finite = operator == BinaryOperator::Add || operator == BinaryOperator::Subtract || operator
                    == BinaryOperator::Multiply || operator == BinaryOperator::Divide;
                if is_float && finite {
                    self.push(
                        OperationKind::Check(RuntimeCheck::FiniteFloat { operand: operand.duplicate(), failure }),
                        failure_span,
                    )?;
                }
                Ok(operand)
            },
        }
    }

    pub fn alternatives_of(&self, union: SourceType, nominal_fault: &'static str, type_fault: &'static str) -> (result:
        Result<&'a Vec<UnionAlternative>, &'static str>)
        ensures
            match alternatives_of(self.context(), union, nominal_fault, type_fault) {
                Ok(alternatives) => result is Ok && result->Ok_0@ == alternatives,
                Err(fault) => result == Err::<&'a Vec<UnionAlternative>, &'static str>(fault),
            },
    {
        proof {
            reveal(alternatives_of);
        }
        if !self.analysis.types.contains(union) {
            return Err(type_fault);
        }
        match self.analysis.types.get(union) {
            ResolvedType::Union(alternatives) => Ok(alternatives),
            ResolvedType::Nominal(declaration) => {
                if declaration.0 >= self.analysis.type_definitions.len() {
                    return Err(nominal_fault);
                }
                match &self.analysis.type_definitions[declaration.0].kind {
                    TypeDefinitionKind::Union { alternatives, .. } => Ok(alternatives),
                    _ => Err(nominal_fault),
                }
            },
            _ => Err(type_fault),
        }
    }

    #[verifier::loop_isolation(false)]
    pub fn alternative_id(&self, union: SourceType, alternative: &UnionAlternative) -> (result: Result<
        AlternativeId,
        &'static str,
    >)
        ensures
            result == alternative_id(self.context(), union, alternative@),
    {
        proof {
            reveal(alternative_id);
        }
        let alternatives = self.alternatives_of(
            union,
            "union operation names a non-union nominal",
            "union operation names a non-union type",
        )?;
        let ghost all = analysis::alternative_views(alternatives@);
        let mut index: usize = 0;
        while index < alternatives.len()
            invariant
                index <= alternatives@.len(),
                all == analysis::alternative_views(alternatives@),
                forall|i: int| 0 <= i < index ==> #[trigger] all[i] != alternative@,
                alternatives_of(
                    self.context(),
                    union,
                    "union operation names a non-union nominal",
                    "union operation names a non-union type",
                ) == Ok::<Seq<UnionAlternative>, &'static str>(alternatives@),
            decreases alternatives@.len() - index,
        {
            if alternatives[index].same(alternative) {
                proof {
                    lemma_first_index(all, alternative@, index as int);
                }
                return Ok(AlternativeId(index));
            }
            index += 1;
        }
        proof {
            lemma_no_index(all, alternative@);
        }
        Err("union alternative is absent")
    }

    pub fn inject(
        &mut self,
        payload: Operand,
        union: SourceType,
        alternative: &UnionAlternative,
        span: Span,
    ) -> (result:
        Result<Operand, &'static str>)
        ensures
            final(self).yields(
                old(self),
                result,
                inject(old(self).context(), old(self)@, payload@, union, alternative@, span),
            ),
    {
        proof {
            reveal(inject);
        }
        let destination = self.temporary(union)?;
        let alternative = self.alternative_id(union, alternative)?;
        let union_type = self.ty(union)?;
        self.push(OperationKind::UnionInject { destination, union_type, alternative, payload }, span)?;
        Ok(copy_operand(destination))
    }

    pub fn injected(&mut self, expression: Span, value: Option<Operand>) -> (result: Result<
        Option<Operand>,
        &'static str,
    >)
        ensures
            final(self).ends(
                old(self),
                result,
                injected(old(self).context(), old(self)@, expression, optional_view(value)),
            ),
    {
        proof {
            reveal(injected);
        }
        match value {
            None => Ok(None),
            Some(value) => match self.analysis.union_injection(expression) {
                None => Ok(Some(value)),
                Some(injection) => {
                    let operand = self.inject(value, injection.union_type, &injection.alternative, expression)?;
                    Ok(Some(operand))
                },
            },
        }
    }
}

/// The latest of some narrowings of a binding.
#[verifier::loop_isolation(false)]
fn find_narrowed(narrowings: &Vec<Narrowing>, binding: BindingId, payload: Option<SourceType>) -> (result: Option<
    LocalId,
>)
    ensures
        result == narrowed_before(narrowings@, binding, payload, narrowings@.len() as int),
{
    let mut index: usize = narrowings.len();
    while index > 0
        invariant
            index <= narrowings@.len(),
            narrowed_before(narrowings@, binding, payload, index as int) == narrowed_before(
                narrowings@,
                binding,
                payload,
                narrowings@.len() as int,
            ),
        decreases index,
    {
        let entry = narrowings[index - 1];
        let matching = match payload {
            Some(payload) => entry.payload == payload,
            None => true,
        };
        if entry.binding == binding && matching {
            return Some(entry.local);
        }
        index -= 1;
    }
    None
}

fn drop_narrowings(narrowings: &Vec<Narrowing>, binding: BindingId) -> (result: Vec<Narrowing>)
    ensures
        result@ == without(narrowings@, binding, narrowings@.len() as int),
{
    let mut kept: Vec<Narrowing> = Vec::new();
    let mut index: usize = 0;
    while index < narrowings.len()
        invariant
            index <= narrowings@.len(),
            kept@ == without(narrowings@, binding, index as int),
        decreases narrowings@.len() - index,
    {
        if narrowings[index].binding != binding {
            kept.push(narrowings[index]);
        }
        index += 1;
    }
    kept
}

impl<'a> Builder<'a> {
    /// Another state of the same lowering.
    pub open spec fn moves(&self, before: &Self, expected: State) -> bool {
        self.continues(before) && self@ == expected
    }

    pub fn bound(&self, binding: BindingId) -> (result: Option<LocalId>)
        ensures
            result == bound(self@, binding),
    {
        if binding.0 < self.bindings.len() {
            self.bindings[binding.0]
        } else {
            None
        }
    }

    pub fn local_of(&self, binding: BindingId, payload: Option<SourceType>) -> (result: Option<LocalId>)
        ensures
            result == local_of(self@, binding, payload),
    {
        proof {
            reveal(local_of);
        }
        match find_narrowed(&self.narrowings, binding, payload) {
            Some(local) => Some(local),
            None => self.bound(binding),
        }
    }

    pub fn widen(&mut self, binding: BindingId)
        ensures
            final(self).moves(old(self), widened(old(self)@, binding)),
    {
        proof {
            reveal(widened);
        }
        let kept = drop_narrowings(&self.narrowings, binding);
        self.narrowings = kept;
    }

    pub fn narrow(&mut self, narrowing: Narrowing)
        ensures
            final(self).moves(old(self), narrowed(old(self)@, narrowing)),
    {
        proof {
            reveal(narrowed);
        }
        self.widen(narrowing.binding);
        self.narrowings.push(narrowing);
    }

    pub fn bind(&mut self, binding: BindingId, local: LocalId)
        ensures
            final(self).moves(old(self), bind(old(self)@, binding, local)),
    {
        proof {
            reveal(bind);
        }
        if binding.0 < self.bindings.len() {
            self.bindings.set(binding.0, Some(local));
        }
    }

    pub fn binding_of(&self, node: BindingNode) -> (result: Option<BindingId>)
        ensures
            result == introduced_from(self.analysis.bindings@, node, 0),
    {
        let bindings = &self.analysis.bindings;
        let mut index: usize = 0;
        while index < bindings.len()
            invariant
                bindings@ == self.analysis.bindings@,
                index <= bindings@.len(),
                introduced_from(bindings@, node, index as int) == introduced_from(bindings@, node, 0),
            decreases bindings@.len() - index,
        {
            if bindings[index].node == node {
                return Some(bindings[index].id);
            }
            index += 1;
        }
        None
    }

    pub fn binding_state(&self, binding: BindingId) -> (result: TypeState)
        ensures
            result == binding_state(self.context(), binding),
    {
        if binding.0 < self.analysis.binding_types.len() {
            self.analysis.binding_types[binding.0].state
        } else {
            TypeState::Error
        }
    }

    fn find_test(&self, expression: Span) -> (result: Option<usize>)
        ensures
            match result {
                Some(index) => test_before(self@.tests, expression, self@.tests.len() as int) == Some(index as int)
                    && index < self.lowered_tests@.len(),
                None => test_before(self@.tests, expression, self@.tests.len() as int) is None,
            },
    {
        let mut index: usize = self.lowered_tests.len();
        while index > 0
            invariant
                index <= self.lowered_tests@.len(),
                test_before(self@.tests, expression, index as int) == test_before(
                    self@.tests,
                    expression,
                    self@.tests.len() as int,
                ),
            decreases index,
        {
            if self.lowered_tests[index - 1].expression == expression {
                return Some(index - 1);
            }
            index -= 1;
        }
        None
    }

    pub fn activate(&mut self, condition: Span, span: Span) -> (result: Result<(), &'static str>)
        ensures
            final(self).did(old(self), result, activated(old(self).context(), old(self)@, condition, span)),
    {
        proof {
            reveal(activated);
        }
        let index = match self.find_test(condition) {
            None => return Ok(()),
            Some(index) => index,
        };
        proof {
            assert(self@.tests[index as int] == self.lowered_tests@[index as int]@);
        }
        let binding = match self.lowered_tests[index].binding {
            None => return Ok(()),
            Some(binding) => binding,
        };
        let payload = self.lowered_tests[index].payload;
        let alternative = self.lowered_tests[index].alternative;
        let union = self.lowered_tests[index].union.duplicate();
        let local = self.temporary(payload)?;
        self.push(OperationKind::UnionPayload { destination: local, union, alternative }, span)?;
        self.narrow(Narrowing { binding, payload, local });
        Ok(())
    }

    pub fn merge(&mut self, paths: &Vec<(BlockId, Span)>) -> (result: bool)
        ensures
            final(self).continues(old(self)),
            (final(self)@, result) == merged(old(self)@, paths@),
    {
        proof {
            reveal(merged);
        }
        if paths.len() == 0 {
            self.block = None;
            return false;
        }
        let ghost first = *self;
        let merge = self.new_block();
        let ghost second = *self;
        let mut index: usize = 0;
        while index < paths.len()
            invariant
                index <= paths@.len(),
                self.continues(&first),
                joined(self@, paths@, merge, index as int) == joined(second@, paths@, merge, 0),
            decreases paths@.len() - index,
        {
            let (block, span) = paths[index];
            self.seal(block, TerminatorKind::Jump(merge), span);
            index += 1;
        }
        self.block = Some(merge);
        true
    }

    pub fn new_blocks(&mut self, count: usize) -> (result: Vec<BlockId>)
        ensures
            final(self).continues(old(self)),
            (final(self)@, result@) == open_blocks(old(self)@, count as int),
            result@.len() == count,
    {
        let ghost first = *self;
        let mut blocks: Vec<BlockId> = Vec::new();
        let mut index: usize = 0;
        while index < count
            invariant
                index <= count,
                self.continues(&first),
                (self@, blocks@) == open_blocks(first@, index as int),
                blocks@.len() == index,
            decreases count - index,
        {
            let block = self.new_block();
            blocks.push(block);
            index += 1;
        }
        blocks
    }

    /// Ends the iterations of the loops around, innermost first.
    pub fn clean_up(&mut self, span: Span) -> (result: Result<(), &'static str>)
        ensures
            final(self).did(
                old(self),
                result,
                cleaned(old(self)@, old(self)@.loops, old(self)@.loops.len() as int, span),
            ),
    {
        let ghost first = *self;
        let mut index: usize = self.loops.len();
        while index > 0
            invariant
                index <= self.loops@.len(),
                self@.loops == first@.loops,
                self.continues(&first),
                first == *old(self),
                cleaned(self@, first@.loops, index as int, span) == cleaned(
                    first@,
                    first@.loops,
                    first@.loops.len() as int,
                    span,
                ),
            decreases index,
        {
            proof {
                assert(self@.loops[index - 1] == self.loops@[index - 1]@);
                reveal(crate::lowering::model::emit);
                reveal(crate::lowering::model::locate);
            }
            let cleanup = match &self.loops[index - 1].cleanup {
                Some(iterable) => Some(iterable.duplicate()),
                None => None,
            };
            if let Some(iterable) = cleanup {
                self.push(OperationKind::EndIteration { iterable }, span)?;
            }
            index -= 1;
        }
        Ok(())
    }
}

/// A place behind one more projection.
pub fn project(place: Place, projection: Projection) -> (result: Place)
    ensures
        result@ == behind(place@, projection),
{
    let mut projections = place.projections;
    projections.push(projection);
    Place { local: place.local, projections }
}

impl<'a> Builder<'a> {
    pub fn definition(&self, declaration: TypeDeclarationId) -> (result: Result<DefinitionId, &'static str>)
        ensures
            result == definition_id(self.context(), declaration),
    {
        if declaration.0 < self.analysis.type_definitions.len() {
            Ok(DefinitionId(declaration.0))
        } else {
            Err("nominal definition has no IR mapping")
        }
    }

    fn field_count(kind: &TypeDefinitionKind) -> (result: usize)
        ensures
            result == field_count(*kind),
    {
        match kind {
            TypeDefinitionKind::Struct(members) => members.len(),
            TypeDefinitionKind::Tuple(members) => members.len(),
            _ => 0,
        }
    }

    pub fn field(&self, declaration: TypeDeclarationId, field: usize) -> (result: Result<FieldId, &'static str>)
        ensures
            result == field_id(self.context(), declaration, field),
    {
        if declaration.0 < self.analysis.type_definitions.len() && field < Self::field_count(
            &self.analysis.type_definitions[declaration.0].kind,
        ) {
            Ok(FieldId(field))
        } else {
            Err("nominal field has no IR mapping")
        }
    }

    pub fn struct_projection(&self, declaration: TypeDeclarationId, field: usize, storage: MemberStorage) -> (result:
        Result<Projection, &'static str>)
        ensures
            result == struct_projection(self.context(), declaration, field, storage),
    {
        proof {
            reveal(struct_projection);
        }
        let definition = self.definition(declaration)?;
        let field = self.field(declaration, field)?;
        Ok(Projection::StructField { definition, field, storage: map_storage(storage) })
    }

    pub fn tuple_projection(&self, declaration: TypeDeclarationId, position: usize) -> (result: Result<
        Projection,
        &'static str,
    >)
        ensures
            result == tuple_projection(self.context(), declaration, position),
    {
        proof {
            reveal(tuple_projection);
        }
        let definition = self.definition(declaration)?;
        let field = self.field(declaration, position)?;
        Ok(Projection::TupleField { definition, field })
    }

    pub fn member_place(&self, receiver: Operand, expression: Span) -> (result: Result<Operand, &'static str>)
        ensures
            match member_place(self.context(), receiver@, expression) {
                Ok(operand) => result is Ok && result->Ok_0@ == operand,
                Err(fault) => result == Err::<Operand, &'static str>(fault),
            },
    {
        proof {
            reveal(member_place);
        }
        match receiver {
            Operand::Constant(_) => Err("member receiver did not materialize to a place"),
            Operand::Copy(place) => match latest_fact(&self.analysis.projections, expression) {
                None => Err("member projection fact is missing"),
                Some(index) => match self.analysis.projections[index].kind {
                    ProjectionKind::Struct { declaration, field, storage, .. } => {
                        let projection = self.struct_projection(declaration, field, storage)?;
                        Ok(Operand::Copy(project(place, projection)))
                    },
                    ProjectionKind::Tuple { declaration, position, .. } => {
                        let projection = self.tuple_projection(declaration, position)?;
                        Ok(Operand::Copy(project(place, projection)))
                    },
                    _ => Err("member expression has a non-member projection"),
                },
            },
        }
    }

    #[verifier::spinoff_prover]
    pub fn indexed(&mut self, receiver: Operand, index: Operand, expression: Span, index_span: Span) -> (result: Result<
        Operand,
        &'static str,
    >)
        requires
            old(self).ready(),
        ensures
            final(self).yields(
                old(self),
                result,
                indexed(old(self).context(), old(self)@, receiver@, index@, expression, index_span),
            ),
    {
        proof {
            reveal(indexed);
        }
        let kind = match latest_fact(&self.analysis.projections, expression) {
            None => return Err("index projection fact is missing"),
            Some(found) => self.analysis.projections[found].kind,
        };
        if let ProjectionKind::String { .. } = kind {
            let ty = self.raw_type(expression)?;
            let destination = self.temporary(ty)?;
            let failure = self.failure(index_span, FailureOperation::StringIndex)?;
            self.push(
                OperationKind::StringIndex { destination, string: receiver, index, failure },
                expression,
            )?;
            return Ok(copy_operand(destination));
        }
        let place = match receiver {
            Operand::Copy(place) => place,
            Operand::Constant(_) => return Err("index receiver did not materialize to a place"),
        };
        let at = match index {
            Operand::Copy(at) => at,
            Operand::Constant(_) => return Err("dynamic index did not materialize to a local"),
        };
        if at.projections.len() != 0 {
            return Err("dynamic index retained projections");
        }
        match kind {
            ProjectionKind::List { .. } => {
                let failure = self.failure(index_span, FailureOperation::ListIndex)?;
                Ok(Operand::Copy(project(place, Projection::ListIndex { index: at.local, failure })))
            },
            ProjectionKind::Mapping { .. } => {
                let failure = self.failure(index_span, FailureOperation::MapIndex)?;
                Ok(Operand::Copy(project(place, Projection::MapIndex { key: at.local, failure })))
            },
            _ => Err("index expression has a non-index projection"),
        }
    }

    pub fn conversion_of(&self, expression: Span) -> (result: Result<(NumericConversion, SourceType), &'static str>)
        ensures
            result == conversion_of(self.context(), expression),
    {
        proof {
            reveal(conversion_of);
        }
        let fact = match latest_fact(&self.analysis.numeric_conversions, expression) {
            None => return Err("numeric conversion fact is missing"),
            Some(index) => self.analysis.numeric_conversions[index],
        };
        if !self.analysis.types.contains(fact.source) || !self.analysis.types.contains(fact.destination) {
            return Err("numeric conversion contains an invalid type identity");
        }
        if self.is_primitive(fact.source, PrimitiveType::Int) {
            Ok((NumericConversion::IntToFloat, fact.destination))
        } else {
            Ok((NumericConversion::FloatToInt, fact.destination))
        }
    }

    pub fn converted(
        &mut self,
        operand: Operand,
        conversion: NumericConversion,
        destination: SourceType,
        span: Span,
    ) -> (result:
        Result<Operand, &'static str>)
        requires
            old(self).ready(),
        ensures
            final(self).yields(
                old(self),
                result,
                converted(old(self).context(), old(self)@, operand@, conversion, destination, span),
            ),
    {
        proof {
            reveal(converted);
        }
        let operand = if conversion == NumericConversion::FloatToInt {
            let operand = self.stabilize(operand, span)?;
            let failure = self.failure(span, FailureOperation::FloatToInt)?;
            self.push(
                OperationKind::Check(
                    RuntimeCheck::NumericConversion { operand: operand.duplicate(), conversion, failure },
                ),
                span,
            )?;
            operand
        } else {
            operand
        };
        let local = self.temporary(destination)?;
        self.push(OperationKind::Convert { destination: local, conversion, operand }, span)?;
        Ok(copy_operand(local))
    }

    pub fn negated(
        &mut self,
        operand: Operand,
        operator: SourceUnary,
        operand_span: Span,
        operator_span: Span,
        expression: Span,
    ) -> (result: Result<Operand, &'static str>)
        requires
            old(self).ready(),
        ensures
            final(self).yields(
                old(self),
                result,
                negated(
                    old(self).context(),
                    old(self)@,
                    operand@,
                    operator,
                    operand_span,
                    operator_span,
                    expression,
                ),
            ),
    {
        proof {
            reveal(negated);
        }
        let ty = self.raw_type(expression)?;
        let operand = if operator == SourceUnary::Minus && self.is_primitive(ty, PrimitiveType::Int) {
            let operand = self.stabilize(operand, operand_span)?;
            let failure = self.failure(operator_span, FailureOperation::IntegerNegation)?;
            self.push(
                OperationKind::Check(RuntimeCheck::IntegerNegation { operand: operand.duplicate(), failure }),
                operator_span,
            )?;
            operand
        } else {
            operand
        };
        let destination = self.temporary(ty)?;
        self.push(OperationKind::Unary { destination, operator: map_unary(operator), operand }, expression)?;
        Ok(copy_operand(destination))
    }

    fn printed(
        &mut self,
        expression: Span,
        destination: LocalId,
        intrinsic: Intrinsic,
        arguments: Vec<Operand>,
    ) -> (result:
        Result<(), &'static str>)
        requires
            old(self).ready(),
        ensures
            final(self).did(
                old(self),
                result,
                printed(
                    old(self).context(),
                    old(self)@,
                    expression,
                    destination,
                    intrinsic,
                    operand_views(arguments@),
                ),
            ),
    {
        let failure = self.failure(expression, FailureOperation::Output)?;
        self.push(OperationKind::Intrinsic { destination, intrinsic, arguments, failure }, expression)
    }

    fn invoked(
        &mut self,
        expression: Span,
        destination: LocalId,
        method: analysis::BuiltinMethod,
        receiver: Operand,
        arguments: Vec<Operand>,
    ) -> (result: Result<(), &'static str>)
        requires
            old(self).ready(),
        ensures
            final(self).did(
                old(self),
                result,
                invoked(
                    old(self).context(),
                    old(self)@,
                    expression,
                    destination,
                    method,
                    receiver@,
                    operand_views(arguments@),
                ),
            ),
    {
        let operation = match method {
            analysis::BuiltinMethod::ListAppend => FailureOperation::ListAppend,
            analysis::BuiltinMethod::ListRemoveIndex => FailureOperation::ListRemoveIndex,
            analysis::BuiltinMethod::MapRemoveKey => FailureOperation::MapRemoveKey,
            _ => {
                return self.push(
                    OperationKind::Builtin {
                        destination,
                        method: map_builtin(method),
                        receiver,
                        arguments,
                        failure: None,
                    },
                    expression,
                );
            },
        };
        let failure = self.failure(expression, operation)?;
        self.push(
            OperationKind::Check(RuntimeCheck::IterationUnlocked { receiver: receiver.duplicate(), failure }),
            expression,
        )?;
        self.push(
            OperationKind::Builtin {
                destination,
                method: map_builtin(method),
                receiver,
                arguments,
                failure: Some(failure),
            },
            expression,
        )
    }

    #[verifier::spinoff_prover]
    pub fn called(
        &mut self,
        expression: Span,
        target: CallTarget,
        receiver: Option<Operand>,
        arguments: Vec<Operand>,
    ) -> (result: Result<Operand, &'static str>)
        requires
            old(self).ready(),
        ensures
            final(self).yields(
                old(self),
                result,
                called(
                    old(self).context(),
                    old(self)@,
                    expression,
                    target,
                    optional_view(receiver),
                    operand_views(arguments@),
                ),
            ),
    {
        proof {
            reveal(called);
        }
        let ty = self.raw_type(expression)?;
        let destination = self.temporary(ty)?;
        match target {
            CallTarget::Callable(CallableId::Function(function)) => {
                if function.0 >= self.analysis.function_signatures.len() {
                    return Err("callee has no IR mapping");
                }
                self.push(
                    OperationKind::Call { destination, function: FunctionId(function.0), arguments },
                    expression,
                )?
            },
            CallTarget::Callable(CallableId::Intrinsic(IntrinsicId::Print)) => self.printed(
                expression,
                destination,
                Intrinsic::Print,
                arguments,
            )?,
            CallTarget::Callable(CallableId::Intrinsic(IntrinsicId::Println)) => self.printed(
                expression,
                destination,
                Intrinsic::Println,
                arguments,
            )?,
            CallTarget::Builtin(method) => match receiver {
                Some(receiver) => self.invoked(expression, destination, method, receiver, arguments)?,
                None => return Err("call retained an unsupported target"),
            },
            _ => return Err("call retained an unsupported target"),
        }
        Ok(copy_operand(destination))
    }
}

/// Where a field goes among fields in order.
proof fn lemma_placed(fields: Seq<(FieldId, OperandView)>, field: (FieldId, OperandView), position: int)
    requires
        0 <= position <= fields.len(),
        position > 0 ==> fields[position - 1].0.0 <= field.0.0,
        forall|i: int| position <= i < fields.len() ==> (#[trigger] fields[i]).0.0 > field.0.0,
    ensures
        placed(fields, field) == fields.insert(position, field),
    decreases fields.len(),
{
    if position == fields.len() {
        assert(fields.insert(position, field) =~= fields.push(field));
    } else {
        let shorter = fields.drop_last();
        assert(fields.last() == fields[fields.len() - 1]);
        lemma_placed(shorter, field, position);
        assert(fields.insert(position, field) =~= shorter.insert(position, field).push(fields.last()));
    }
}

/// The fields that arguments fill, in the order of the fields.
fn fill_fields(members: &Vec<usize>, values: Vec<Operand>) -> (result: Vec<(FieldId, Operand)>)
    requires
        members@.len() == values@.len(),
    ensures
        field_views(result@) == filled(members@, operand_views(values@), values@.len() as int),
{
    let ghost all = operand_views(values@);
    let mut fields: Vec<(FieldId, Operand)> = Vec::new();
    assert(field_views(fields@) =~= seq![]);
    let mut index: usize = 0;
    while index < values.len()
        invariant
            members@.len() == values@.len(),
            all == operand_views(values@),
            index <= values@.len(),
            field_views(fields@) == filled(members@, all, index as int),
        decreases values@.len() - index,
    {
        let field = FieldId(members[index]);
        let value = values[index].duplicate();
        let mut position: usize = fields.len();
        while position > 0 && fields[position - 1].0.0 > field.0
            invariant
                position <= fields@.len(),
                forall|i: int| position <= i < fields@.len() ==> (#[trigger] fields@[i]).0.0 > field.0,
            decreases position,
        {
            position -= 1;
        }
        let ghost before = fields@;
        let ghost added = (field, value@);
        fields.insert(position, (field, value));
        proof {
            assert forall|i: int| position <= i < field_views(before).len() implies (#[trigger] field_views(
                before,
            )[i]).0.0 > field.0 by {
                assert(before[i].0.0 > field.0);
            }
            if position > 0 {
                assert(field_views(before)[position - 1].0 == before[position - 1].0);
            }
            lemma_placed(field_views(before), added, position as int);
            assert(field_views(fields@) =~= field_views(before).insert(position as int, added));
            assert(all[index as int] == values@[index as int]@);
        }
        index += 1;
    }
    fields
}

impl<'a> Builder<'a> {
    fn nominal_type(&self, declaration: TypeDeclarationId) -> (result: Option<SourceType>)
        ensures
            result == nominal_from(self.analysis.types.entries@, declaration, 0),
    {
        let entries = &self.analysis.types.entries;
        let mut index: usize = 0;
        while index < entries.len()
            invariant
                entries@ == self.analysis.types.entries@,
                index <= entries@.len(),
                nominal_from(entries@, declaration, index as int) == nominal_from(entries@, declaration, 0),
            decreases entries@.len() - index,
        {
            if let ResolvedType::Nominal(found) = &entries[index] {
                if *found == declaration {
                    return Some(SourceType(index));
                }
            }
            index += 1;
        }
        None
    }

    fn joined_union(
        &mut self,
        expression: Span,
        declaration: TypeDeclarationId,
        alternative: &UnionAlternative,
        values: &Vec<Operand>,
    ) -> (result: Result<Operand, &'static str>)
        ensures
            final(self).yields(
                old(self),
                result,
                joined_union(
                    old(self).context(),
                    old(self)@,
                    expression,
                    declaration,
                    alternative@,
                    operand_views(values@),
                ),
            ),
    {
        if values.len() != 1 {
            return Err("union constructor does not have one payload");
        }
        match self.nominal_type(declaration) {
            None => Err("union constructor declaration has no canonical nominal type"),
            Some(union) => self.inject(values[0].duplicate(), union, alternative, expression),
        }
    }

    fn fields_known(members: &Vec<usize>, kind: &TypeDefinitionKind) -> (result: bool)
        ensures
            result == !(exists|i: int| 0 <= i < members@.len() && #[trigger] members@[i] >= field_count(*kind)),
    {
        let count = Self::field_count(kind);
        let mut index: usize = 0;
        while index < members.len()
            invariant
                count == field_count(*kind),
                index <= members@.len(),
                forall|i: int| 0 <= i < index ==> #[trigger] members@[i] < field_count(*kind),
            decreases members@.len() - index,
        {
            if members[index] >= count {
                return false;
            }
            index += 1;
        }
        true
    }

    #[verifier::spinoff_prover]
    pub fn constructed(&mut self, expression: Span, kind: &ConstructorKind, values: Vec<Operand>) -> (result: Result<
        Operand,
        &'static str,
    >)
        ensures
            final(self).yields(
                old(self),
                result,
                constructed(old(self).context(), old(self)@, expression, *kind, operand_views(values@)),
            ),
    {
        proof {
            reveal(constructed);
        }
        match kind {
            ConstructorKind::Struct { declaration, argument_members } => {
                if values.len() != argument_members.len() {
                    return Err("struct argument mapping has the wrong length");
                }
                if declaration.0 >= self.analysis.type_definitions.len() {
                    return Err("struct definition has no field map");
                }
                if !Self::fields_known(argument_members, &self.analysis.type_definitions[declaration.0].kind) {
                    return Err("struct argument maps to an invalid field");
                }
                let fields = fill_fields(argument_members, values);
                self.aggregate(expression, Aggregate::Struct { definition: DefinitionId(declaration.0), fields })
            },
            ConstructorKind::Tuple(declaration) => {
                let definition = self.definition(*declaration)?;
                self.aggregate(expression, Aggregate::Tuple { definition, elements: values })
            },
            ConstructorKind::Union { declaration, alternative } => self.joined_union(
                expression,
                *declaration,
                alternative,
                &values,
            ),
            ConstructorKind::TaggedUnion { declaration, alternative } => self.joined_union(
                expression,
                *declaration,
                alternative,
                &values,
            ),
            ConstructorKind::Error { union_type, alternative } => {
                if values.len() != 1 {
                    return Err("Error constructor does not have one payload");
                }
                self.inject(values[0].duplicate(), *union_type, alternative, expression)
            },
        }
    }
}

impl<'a> Builder<'a> {
    fn arm_of(switch: &SwitchResolution, alternative: &UnionAlternative) -> (result: Option<usize>)
        ensures
            match result {
                Some(index) => arm_from(*switch, alternative@, 0) == Some(index as int) && index < switch.arms@.len(),
                None => arm_from(*switch, alternative@, 0) is None,
            },
    {
        let mut index: usize = 0;
        while index < switch.arms.len()
            invariant
                index <= switch.arms@.len(),
                arm_from(*switch, alternative@, index as int) == arm_from(*switch, alternative@, 0),
            decreases switch.arms@.len() - index,
        {
            if switch.arms[index].alternative.same(alternative) {
                return Some(index);
            }
            index += 1;
        }
        None
    }

    fn arm_block(
        switch: &SwitchResolution,
        alternative: &UnionAlternative,
        blocks: &Vec<BlockId>,
        other: Option<BlockId>,
    ) -> (result: Option<BlockId>)
        ensures
            result == arm_block(*switch, alternative@, blocks@, other),
    {
        match Self::arm_of(switch, alternative) {
            Some(index) => if index < blocks.len() {
                Some(blocks[index])
            } else {
                other
            },
            None => other,
        }
    }

    pub fn targets(
        &self,
        switch: &SwitchResolution,
        alternatives: &Vec<UnionAlternative>,
        blocks: &Vec<BlockId>,
        other: Option<BlockId>,
    ) -> (result: Result<Vec<(AlternativeId, BlockId)>, &'static str>)
        ensures
            match targets_from(self.context(), *switch, alternatives@, blocks@, other, 0, seq![]) {
                Ok(targets) => result is Ok && result->Ok_0@ == targets,
                Err(fault) => result == Err::<Vec<(AlternativeId, BlockId)>, &'static str>(fault),
            },
    {
        let mut targets: Vec<(AlternativeId, BlockId)> = Vec::new();
        assert(targets@ =~= seq![]);
        let mut index: usize = 0;
        while index < alternatives.len()
            invariant
                index <= alternatives@.len(),
                targets_from(
                    self.context(),
                    *switch,
                    alternatives@,
                    blocks@,
                    other,
                    index as int,
                    targets@,
                ) == targets_from(self.context(), *switch, alternatives@, blocks@, other, 0, seq![]),
            decreases alternatives@.len() - index,
        {
            let id = self.alternative_id(switch.operand_union, &alternatives[index])?;
            match Self::arm_block(switch, &alternatives[index], blocks, other) {
                None => return Err("exhaustive switch has no target for an alternative"),
                Some(block) => targets.push((id, block)),
            }
            index += 1;
        }
        Ok(targets)
    }

    pub fn narrow_arm(
        &mut self,
        switch: &SwitchResolution,
        union: &Operand,
        index: usize,
        span: Span,
    ) -> (result: Result<
        (),
        &'static str,
    >)
        requires
            index < switch.arms@.len(),
        ensures
            final(self).did(
                old(self),
                result,
                arm_narrowed(old(self).context(), old(self)@, *switch, union@, index as int, span),
            ),
    {
        proof {
            reveal(arm_narrowed);
        }
        let binding = match switch.binding {
            None => return Ok(()),
            Some(binding) => binding,
        };
        let arm = &switch.arms[index];
        let alternative = self.alternative_id(switch.operand_union, &arm.alternative)?;
        let local = self.temporary(arm.payload)?;
        self.push(OperationKind::UnionPayload { destination: local, union: union.duplicate(), alternative }, span)?;
        self.narrow(Narrowing { binding, payload: arm.payload, local });
        Ok(())
    }

    fn exits(&self, union: SourceType, alternatives: &Vec<UnionAlternative>, blocks: &Vec<BlockId>) -> (result: Result<
        Vec<(AlternativeId, BlockId)>,
        &'static str,
    >)
        requires
            blocks@.len() == alternatives@.len(),
        ensures
            match exits_from(self.context(), union, alternatives@, blocks@, 0, seq![]) {
                Ok(targets) => result is Ok && result->Ok_0@ == targets,
                Err(fault) => result == Err::<Vec<(AlternativeId, BlockId)>, &'static str>(fault),
            },
    {
        let mut targets: Vec<(AlternativeId, BlockId)> = Vec::new();
        assert(targets@ =~= seq![]);
        let mut index: usize = 0;
        while index < alternatives.len()
            invariant
                blocks@.len() == alternatives@.len(),
                index <= alternatives@.len(),
                exits_from(self.context(), union, alternatives@, blocks@, index as int, targets@) == exits_from(
                    self.context(),
                    union,
                    alternatives@,
                    blocks@,
                    0,
                    seq![],
                ),
            decreases alternatives@.len() - index,
        {
            let id = self.alternative_id(union, &alternatives[index])?;
            targets.push((id, blocks[index]));
            index += 1;
        }
        Ok(targets)
    }

    fn count_successes(alternatives: &Vec<UnionAlternative>) -> (result: usize)
        ensures
            result == successes_count(alternatives@, alternatives@.len() as int),
    {
        let mut count: usize = 0;
        let mut index: usize = 0;
        while index < alternatives.len()
            invariant
                index <= alternatives@.len(),
                count <= index,
                count == successes_count(alternatives@, index as int),
            decreases alternatives@.len() - index,
        {
            match &alternatives[index] {
                UnionAlternative::Error(_) => {},
                _ => {
                    count += 1;
                },
            }
            index += 1;
        }
        count
    }

    fn errored(&mut self, r: &TryResolution, alternative: &UnionAlternative, payload: Operand) -> (result: Result<
        (),
        &'static str,
    >)
        requires
            old(self).ready(),
        ensures
            final(self).did(
                old(self),
                result,
                errored(old(self).context(), old(self)@, *r, alternative@, payload@),
            ),
    {
        proof {
            reveal(errored);
        }
        if !alternative.same(&r.source_error) {
            return Err("postfix try selects a contradictory Error alternative");
        }
        match &r.action {
            TryAction::Propagate { function, destination_union, destination_error } => {
                if *function != self.function_id || alternative_payload(destination_error) != alternative_payload(
                    alternative,
                ) {
                    return Err("postfix try propagation action is contradictory");
                }
                let returned = self.inject(payload, *destination_union, destination_error, r.operator_span)?;
                self.clean_up(r.operator_span)?;
                self.terminate(TerminatorKind::Return(returned), r.operator_span)
            },
            TryAction::Panic { function } => {
                if *function != self.function_id {
                    return Err("postfix try panic action names the wrong function");
                }
                let failure = self.failure(r.operator_span, FailureOperation::UnhandledError)?;
                self.terminate(TerminatorKind::ErrorPanic { payload, failure }, r.operator_span)
            },
        }
    }

    fn try_type(r: &TryResolution) -> (result: SourceType)
        ensures
            result == try_type(*r),
    {
        match r.widening {
            Some(ty) => ty,
            None => r.success,
        }
    }

    fn succeeded(
        &mut self,
        r: &TryResolution,
        alternative: &UnionAlternative,
        payload: Operand,
        target: LocalId,
        single: bool,
    ) -> (result: Result<(), &'static str>)
        ensures
            final(self).did(
                old(self),
                result,
                succeeded(old(self).context(), old(self)@, *r, alternative@, payload@, target, single),
            ),
    {
        proof {
            reveal(succeeded);
        }
        let value = if single && r.widening.is_none() {
            if alternative_payload(alternative) != r.success {
                return Err("single-success try has the wrong result type");
            }
            payload
        } else {
            self.inject(payload, Self::try_type(r), alternative, r.operator_span)?
        };
        self.push(OperationKind::Assign { destination: Place::local(target), value }, r.operator_span)
    }

    /// Ends the path that control is on and adds it to others.
    pub fn take_path(&mut self, paths: &mut Vec<(BlockId, Span)>, span: Span)
        ensures
            final(self).moves(old(self), left(old(self)@)),
            final(paths)@ == with_path(old(paths)@, old(self)@, span),
    {
        match self.block {
            Some(block) => {
                paths.push((block, span));
                self.block = None;
            },
            None => {},
        }
    }

    #[verifier::spinoff_prover]
    fn attempts(
        &mut self,
        r: &TryResolution,
        alternatives: &Vec<UnionAlternative>,
        operand: &Operand,
        target: LocalId,
        single: bool,
        blocks: &Vec<BlockId>,
    ) -> (result: Result<Vec<(BlockId, Span)>, &'static str>)
        requires
            old(self).ready(),
            blocks@.len() == alternatives@.len(),
        ensures
            final(self).continues(old(self)),
            match attempted_from(
                old(self).context(),
                old(self)@,
                *r,
                alternatives@,
                operand@,
                target,
                single,
                blocks@,
                0,
                seq![],
            ) {
                Ok((state, paths)) => result is Ok && result->Ok_0@ == paths && final(self)@ == state,
                Err(fault) => result == Err::<Vec<(BlockId, Span)>, &'static str>(fault),
            },
    {
        let ghost first = *self;
        let ghost c = self.context();
        let mut paths: Vec<(BlockId, Span)> = Vec::new();
        assert(paths@ =~= seq![]);
        let mut index: usize = 0;
        while index < alternatives.len()
            invariant
                first == *old(self),
                c == first.context(),
                self.ready(),
                self.continues(&first),
                blocks@.len() == alternatives@.len(),
                index <= alternatives@.len(),
                attempted_from(
                    c,
                    self@,
                    *r,
                    alternatives@,
                    operand@,
                    target,
                    single,
                    blocks@,
                    index as int,
                    paths@,
                ) == attempted_from(
                    c,
                    first@,
                    *r,
                    alternatives@,
                    operand@,
                    target,
                    single,
                    blocks@,
                    0,
                    seq![],
                ),
            decreases alternatives@.len() - index,
        {
            let alternative = &alternatives[index];
            let id = self.alternative_id(r.operand_union, alternative)?;
            self.block = Some(blocks[index]);
            let local = self.temporary(alternative_payload(alternative))?;
            self.push(
                OperationKind::UnionPayload { destination: local, union: operand.duplicate(), alternative: id },
                r.operator_span,
            )?;
            let failing = match alternative {
                UnionAlternative::Error(_) => true,
                _ => false,
            };
            if failing {
                self.errored(r, alternative, copy_operand(local))?;
            } else {
                self.succeeded(r, alternative, copy_operand(local), target, single)?;
                self.take_path(&mut paths, r.operator_span);
            }
            index += 1;
        }
        Ok(paths)
    }

    #[verifier::spinoff_prover]
    pub fn attempted(&mut self, expression: Span, value: Span, operand: Operand) -> (result: Result<
        Operand,
        &'static str,
    >)
        requires
            old(self).ready(),
        ensures
            final(self).yields(
                old(self),
                result,
                attempted(old(self).context(), old(self)@, expression, value, operand@),
            ),
    {
        proof {
            reveal(attempted);
        }
        let semantic = self.semantic;
        let r = match only_fact(&semantic.tries, expression) {
            None => return Err("postfix try does not have exactly one resolution"),
            Some(index) => &semantic.tries[index],
        };
        let union = self.expression_type(value)?;
        if r.operand_union != union {
            return Err("postfix try resolution contradicts its operand");
        }
        let alternatives = self.alternatives_of(
            r.operand_union,
            "union identity names a non-union nominal",
            "union identity names a non-union type",
        )?;
        let target = self.temporary(Self::try_type(r))?;
        let blocks = self.new_blocks(alternatives.len());
        let single = Self::count_successes(alternatives) == 1;
        let targets = self.exits(r.operand_union, alternatives, &blocks)?;
        self.terminate(TerminatorKind::Switch { union: operand.duplicate(), targets }, r.operator_span)?;
        let paths = self.attempts(r, alternatives, &operand, target, single, &blocks)?;
        if self.merge(&paths) {
            Ok(copy_operand(target))
        } else {
            Err("postfix try has no success path")
        }
    }
}

} // verus!
