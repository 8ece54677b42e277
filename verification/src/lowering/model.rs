//! What lowering builds, as contracts speak of it: the contents of the intermediate representation, and the
//! steps by which a function body grows.

use crate::analysis::{self, Analysis, BindingId, TypeId as SourceType};
use crate::ir::{
    self, Aggregate, AlternativeId, BasicBlock, BinaryOperator, BlockId, BuiltinMethod, ByteSpan, DefinitionId,
    DefinitionLayout, FailureOperation, FailureSite, FailureSiteId, FieldId, Function, FunctionId,
    IntegerOperation, Intrinsic, Local, LocalId, LocalOrigin, LocationId, MemberStorage, NominalDefinition,
    NumericConversion, Operand, OperandView, Operation, OperationKind, PlaceView, RuntimeCheck, TerminatorKind,
    TypeId, TypeView, UnaryOperator, failure_key, failure_keys, first_index,
};
use crate::semantic::SemanticResult;
use crate::source::{Span, location};
use vstd::prelude::*;

verus! {

/// The contents of several operands.
pub open spec fn operand_views(operands: Seq<Operand>) -> Seq<OperandView> {
    Seq::new(operands.len(), |i: int| operands[i]@)
}

/// The contents of several fields with their values.
pub open spec fn field_views(fields: Seq<(FieldId, Operand)>) -> Seq<(FieldId, OperandView)> {
    Seq::new(fields.len(), |i: int| (fields[i].0, fields[i].1@))
}

/// The contents of several map entries.
pub open spec fn entry_views(entries: Seq<(Operand, Operand)>) -> Seq<(OperandView, OperandView)> {
    Seq::new(entries.len(), |i: int| (entries[i].0@, entries[i].1@))
}

/// The contents of an aggregate.
pub enum AggregateView {
    Struct { definition: DefinitionId, fields: Seq<(FieldId, OperandView)> },
    Tuple { definition: DefinitionId, elements: Seq<OperandView> },
    List { ty: TypeId, elements: Seq<OperandView> },
    Mapping { ty: TypeId, entries: Seq<(OperandView, OperandView)> },
}

pub open spec fn aggregate_view(aggregate: Aggregate) -> AggregateView {
    match aggregate {
        Aggregate::Struct { definition, fields } => AggregateView::Struct { definition, fields: field_views(fields@) },
        Aggregate::Tuple { definition, elements } => AggregateView::Tuple {
            definition,
            elements: operand_views(elements@),
        },
        Aggregate::List { ty, elements } => AggregateView::List { ty, elements: operand_views(elements@) },
        Aggregate::Mapping { ty, entries } => AggregateView::Mapping { ty, entries: entry_views(entries@) },
    }
}

/// The contents of a runtime check.
pub enum CheckView {
    IntegerOverflow { operation: IntegerOperation, left: OperandView, right: OperandView, failure: FailureSiteId },
    IntegerNegation { operand: OperandView, failure: FailureSiteId },
    Division { left: OperandView, right: OperandView, failure: FailureSiteId },
    Remainder { left: OperandView, right: OperandView, failure: FailureSiteId },
    ShiftRange { amount: OperandView, failure: FailureSiteId },
    FiniteFloat { operand: OperandView, failure: FailureSiteId },
    NumericConversion { operand: OperandView, conversion: NumericConversion, failure: FailureSiteId },
    IterationUnlocked { receiver: OperandView, failure: FailureSiteId },
}

pub open spec fn check_view(check: RuntimeCheck) -> CheckView {
    match check {
        RuntimeCheck::IntegerOverflow { operation, left, right, failure } => CheckView::IntegerOverflow {
            operation,
            left: left@,
            right: right@,
            failure,
        },
        RuntimeCheck::IntegerNegation { operand, failure } => CheckView::IntegerNegation {
            operand: operand@,
            failure,
        },
        RuntimeCheck::Division { left, right, failure } => CheckView::Division { left: left@, right: right@, failure },
        RuntimeCheck::Remainder { left, right, failure } => CheckView::Remainder {
            left: left@,
            right: right@,
            failure,
        },
        RuntimeCheck::ShiftRange { amount, failure } => CheckView::ShiftRange { amount: amount@, failure },
        RuntimeCheck::FiniteFloat { operand, failure } => CheckView::FiniteFloat { operand: operand@, failure },
        RuntimeCheck::NumericConversion { operand, conversion, failure } => CheckView::NumericConversion {
            operand: operand@,
            conversion,
            failure,
        },
        RuntimeCheck::IterationUnlocked { receiver, failure } => CheckView::IterationUnlocked {
            receiver: receiver@,
            failure,
        },
    }
}

/// The contents of an operation.
#[allow(inconsistent_fields)]
pub enum OperationView {
    Copy { destination: LocalId, operand: OperandView },
    Unary { destination: LocalId, operator: UnaryOperator, operand: OperandView },
    Binary { destination: LocalId, operator: BinaryOperator, left: OperandView, right: OperandView },
    Convert { destination: LocalId, conversion: NumericConversion, operand: OperandView },
    Aggregate { destination: LocalId, aggregate: AggregateView },
    UnionInject { destination: LocalId, union_type: TypeId, alternative: AlternativeId, payload: OperandView },
    UnionTest { destination: LocalId, union: OperandView, alternative: AlternativeId },
    UnionPayload { destination: LocalId, union: OperandView, alternative: AlternativeId },
    StringIndex { destination: LocalId, string: OperandView, index: OperandView, failure: FailureSiteId },
    Assign { destination: PlaceView, value: OperandView },
    Call { destination: LocalId, function: FunctionId, arguments: Seq<OperandView> },
    Intrinsic { destination: LocalId, intrinsic: Intrinsic, arguments: Seq<OperandView>, failure: FailureSiteId },
    Builtin {
        destination: LocalId,
        method: BuiltinMethod,
        receiver: OperandView,
        arguments: Seq<OperandView>,
        failure: Option<FailureSiteId>,
    },
    BeginIteration { iterable: OperandView },
    EndIteration { iterable: OperandView },
    IterationValue { destination: LocalId, iterable: OperandView, index: OperandView },
    Check(CheckView),
}

pub open spec fn operation_view(kind: OperationKind) -> OperationView {
    match kind {
        OperationKind::Copy { destination, operand } => OperationView::Copy { destination, operand: operand@ },
        OperationKind::Unary { destination, operator, operand } => OperationView::Unary {
            destination,
            operator,
            operand: operand@,
        },
        OperationKind::Binary { destination, operator, left, right } => OperationView::Binary {
            destination,
            operator,
            left: left@,
            right: right@,
        },
        OperationKind::Convert { destination, conversion, operand } => OperationView::Convert {
            destination,
            conversion,
            operand: operand@,
        },
        OperationKind::Aggregate { destination, aggregate } => OperationView::Aggregate {
            destination,
            aggregate: aggregate_view(aggregate),
        },
        OperationKind::UnionInject { destination, union_type, alternative, payload } => OperationView::UnionInject {
            destination,
            union_type,
            alternative,
            payload: payload@,
        },
        OperationKind::UnionTest { destination, union, alternative } => OperationView::UnionTest {
            destination,
            union: union@,
            alternative,
        },
        OperationKind::UnionPayload { destination, union, alternative } => OperationView::UnionPayload {
            destination,
            union: union@,
            alternative,
        },
        OperationKind::StringIndex { destination, string, index, failure } => OperationView::StringIndex {
            destination,
            string: string@,
            index: index@,
            failure,
        },
        OperationKind::Assign { destination, value } => OperationView::Assign {
            destination: destination@,
            value: value@,
        },
        OperationKind::Call { destination, function, arguments } => OperationView::Call {
            destination,
            function,
            arguments: operand_views(arguments@),
        },
        OperationKind::Intrinsic { destination, intrinsic, arguments, failure } => OperationView::Intrinsic {
            destination,
            intrinsic,
            arguments: operand_views(arguments@),
            failure,
        },
        OperationKind::Builtin { destination, method, receiver, arguments, failure } => OperationView::Builtin {
            destination,
            method,
            receiver: receiver@,
            arguments: operand_views(arguments@),
            failure,
        },
        OperationKind::BeginIteration { iterable } => OperationView::BeginIteration { iterable: iterable@ },
        OperationKind::EndIteration { iterable } => OperationView::EndIteration { iterable: iterable@ },
        OperationKind::IterationValue { destination, iterable, index } => OperationView::IterationValue {
            destination,
            iterable: iterable@,
            index: index@,
        },
        OperationKind::Check(check) => OperationView::Check(check_view(check)),
    }
}

/// The contents of a terminator.
pub enum TerminatorView {
    Jump(BlockId),
    Branch { condition: OperandView, then_block: BlockId, else_block: BlockId },
    Switch { union: OperandView, targets: Seq<(AlternativeId, BlockId)> },
    Return(OperandView),
    Panic { message: OperandView, failure: FailureSiteId },
    ErrorPanic { payload: OperandView, failure: FailureSiteId },
    Unreachable,
}

pub open spec fn terminator_view(kind: TerminatorKind) -> TerminatorView {
    match kind {
        TerminatorKind::Jump(block) => TerminatorView::Jump(block),
        TerminatorKind::Branch { condition, then_block, else_block } => TerminatorView::Branch {
            condition: condition@,
            then_block,
            else_block,
        },
        TerminatorKind::Switch { union, targets } => TerminatorView::Switch { union: union@, targets: targets@ },
        TerminatorKind::Return(value) => TerminatorView::Return(value@),
        TerminatorKind::Panic { message, failure } => TerminatorView::Panic { message: message@, failure },
        TerminatorKind::ErrorPanic { payload, failure } => TerminatorView::ErrorPanic { payload: payload@, failure },
        TerminatorKind::Unreachable => TerminatorView::Unreachable,
    }
}

/// The contents of a basic block.
pub struct BlockView {
    pub operations: Seq<(OperationView, LocationId)>,
    pub terminator: Option<(TerminatorView, LocationId)>,
}

pub open spec fn operation_views(operations: Seq<Operation>) -> Seq<(OperationView, LocationId)> {
    Seq::new(operations.len(), |i: int| (operation_view(operations[i].kind), operations[i].location))
}

pub open spec fn block_view(block: BasicBlock) -> BlockView {
    BlockView {
        operations: operation_views(block.operations@),
        terminator: match block.terminator {
            Some(terminator) => Some((terminator_view(terminator.kind), terminator.location)),
            None => None,
        },
    }
}

pub open spec fn block_views(blocks: Seq<BasicBlock>) -> Seq<BlockView> {
    Seq::new(blocks.len(), |i: int| block_view(blocks[i]))
}

/// The contents of a local.
pub struct LocalView {
    pub ty: TypeId,
    pub source_name: Option<Seq<char>>,
    pub origin: LocalOrigin,
}

pub open spec fn local_view(local: Local) -> LocalView {
    LocalView {
        ty: local.ty,
        source_name: match local.source_name {
            Some(name) => Some(name@),
            None => None,
        },
        origin: local.origin,
    }
}

pub open spec fn local_views(locals: Seq<Local>) -> Seq<LocalView> {
    Seq::new(locals.len(), |i: int| local_view(locals[i]))
}

/// The contents of the layout of a definition.
pub enum LayoutView {
    Struct(Seq<(Seq<char>, TypeId, MemberStorage)>),
    Tuple(Seq<TypeId>),
    Union(Seq<ir::AlternativeView>),
}

pub open spec fn layout_view(layout: DefinitionLayout) -> LayoutView {
    match layout {
        DefinitionLayout::Struct(fields) => LayoutView::Struct(
            Seq::new(fields@.len(), |i: int| (fields@[i].name@, fields@[i].ty, fields@[i].storage)),
        ),
        DefinitionLayout::Tuple(fields) => LayoutView::Tuple(fields@),
        DefinitionLayout::Union(alternatives) => LayoutView::Union(ir::alternative_views(alternatives@)),
    }
}

/// The contents of a nominal definition.
pub struct DefinitionView {
    pub name: Seq<char>,
    pub layout: LayoutView,
}

pub open spec fn definition_view(definition: NominalDefinition) -> DefinitionView {
    DefinitionView { name: definition.name@, layout: layout_view(definition.layout) }
}

pub open spec fn definition_views(definitions: Seq<NominalDefinition>) -> Seq<DefinitionView> {
    Seq::new(definitions.len(), |i: int| definition_view(definitions[i]))
}

/// The contents of a function.
pub struct FunctionView {
    pub name: Seq<char>,
    pub parameters: Seq<LocalId>,
    pub result: TypeId,
    pub locals: Seq<LocalView>,
    pub entry: Option<BlockId>,
    pub blocks: Seq<BlockView>,
}

pub open spec fn function_view(function: Function) -> FunctionView {
    FunctionView {
        name: function.name@,
        parameters: function.parameters@,
        result: function.result,
        locals: local_views(function.locals@),
        entry: function.entry,
        blocks: block_views(function.blocks@),
    }
}

pub open spec fn function_views(functions: Seq<Function>) -> Seq<FunctionView> {
    Seq::new(functions.len(), |i: int| function_view(functions[i]))
}

/// A loop that is being lowered: where `continue` and `break` go, and what iteration is to be ended on the way
/// out of the function.
pub struct LoopView {
    pub source: Span,
    pub continue_target: BlockId,
    pub break_target: BlockId,
    pub cleanup: Option<OperandView>,
}

/// A binding that is known to hold one alternative of its union, and the local that holds the payload.
#[derive(Clone, Copy, Debug, Eq, PartialEq, Structural)]
pub struct Narrowing {
    pub binding: BindingId,
    pub payload: SourceType,
    pub local: LocalId,
}

/// A union test that has been lowered.
pub struct TestView {
    pub expression: Span,
    pub binding: Option<BindingId>,
    pub union: OperandView,
    pub alternative: AlternativeId,
    pub payload: SourceType,
}

/// What does not change while a function body is lowered.
pub struct Context<'a> {
    pub analysis: &'a Analysis<'a>,
    pub semantic: &'a SemanticResult,
    /// The type that each type of the analysis became.
    pub types: Seq<Option<TypeId>>,
    pub program_types: Seq<TypeView>,
    pub definitions: Seq<DefinitionView>,
    pub function: analysis::FunctionId,
}

/// What grows while a function body is lowered.
#[verifier::ext_equal]
pub struct State {
    pub locations: Seq<ByteSpan>,
    pub failure_sites: Seq<FailureSite>,
    pub parameters: Seq<LocalId>,
    pub locals: Seq<LocalView>,
    pub blocks: Seq<BlockView>,
    /// The block that operations go to; none where control does not get.
    pub block: Option<BlockId>,
    pub bindings: Seq<Option<LocalId>>,
    pub loops: Seq<LoopView>,
    pub narrowings: Seq<Narrowing>,
    pub tests: Seq<TestView>,
}

/// A step that gives a value and leaves a state, or fails.
pub type Outcome<T> = Result<(State, T), &'static str>;

/// The place that is a local as a whole.
pub open spec fn whole(local: LocalId) -> PlaceView {
    PlaceView { local, projections: seq![] }
}

/// The value of a local.
pub open spec fn value_of(local: LocalId) -> OperandView {
    OperandView::Copy(whole(local))
}

/// The location of a span, which is added where it is new.
#[verifier::opaque]
pub open spec fn locate(s: State, span: Span) -> (State, LocationId) {
    let wanted = ByteSpan { start: span.start, end: span.end };
    match first_index(s.locations, wanted) {
        Some(index) => (s, LocationId(index as usize)),
        None => (
            State { locations: s.locations.push(wanted), ..s },
            LocationId(s.locations.len() as usize),
        ),
    }
}

/// The site of a failure in the function that is being lowered, which is added where it is new.
#[verifier::opaque]
pub open spec fn fail(c: Context, s: State, span: Span, operation: FailureOperation) -> Outcome<FailureSiteId> {
    let (located, at) = locate(s, span);
    if c.function.0 >= c.analysis.function_signatures@.len() {
        Err("current function has no IR identity")
    } else {
        let (line, column) = location(c.analysis.source.bytes(), span.start as int);
        let site = FailureSite {
            location: at,
            function: FunctionId(c.function.0),
            operation,
            line: line as usize,
            column: column as usize,
        };
        match first_index(failure_keys(located.failure_sites), failure_key(site)) {
            Some(index) => Ok((located, FailureSiteId(index as usize))),
            None => Ok(
                (
                    State { failure_sites: located.failure_sites.push(site), ..located },
                    FailureSiteId(located.failure_sites.len() as usize),
                ),
            ),
        }
    }
}

/// Whether control is in a block.
pub open spec fn in_block(s: State) -> bool {
    s.block matches Some(block) && block.0 < s.blocks.len()
}

/// An operation at the end of the current block.
#[verifier::opaque]
pub open spec fn emit(s: State, operation: OperationView, span: Span) -> Outcome<()> {
    let (located, at) = locate(s, span);
    if !in_block(located) {
        Err("operation emitted after path termination")
    } else {
        let index = (located.block->0).0 as int;
        let block = located.blocks[index];
        let grown = BlockView { operations: block.operations.push((operation, at)), terminator: block.terminator };
        Ok((State { blocks: located.blocks.update(index, grown), ..located }, ()))
    }
}

/// The end of a given block.
#[verifier::opaque]
pub open spec fn seal(s: State, block: BlockId, terminator: TerminatorView, span: Span) -> State {
    let (located, at) = locate(s, span);
    if block.0 < located.blocks.len() {
        let sealed = BlockView {
            operations: located.blocks[block.0 as int].operations,
            terminator: Some((terminator, at)),
        };
        State { blocks: located.blocks.update(block.0 as int, sealed), ..located }
    } else {
        located
    }
}

/// The end of the current block; control goes on nowhere.
#[verifier::opaque]
pub open spec fn finish(s: State, terminator: TerminatorView, span: Span) -> Outcome<()> {
    let (located, at) = locate(s, span);
    if !in_block(located) {
        Err("operation emitted after path termination")
    } else {
        Ok((State { block: None, ..seal(s, located.block->0, terminator, span) }, ()))
    }
}

/// A new empty block.
#[verifier::opaque]
pub open spec fn open_block(s: State) -> (State, BlockId) {
    (
        State { blocks: s.blocks.push(BlockView { operations: seq![], terminator: None }), ..s },
        BlockId(s.blocks.len() as usize),
    )
}

/// Control in the given block.
pub open spec fn entered(s: State, block: BlockId) -> State {
    State { block: Some(block), ..s }
}

/// Control nowhere.
pub open spec fn left(s: State) -> State {
    State { block: None, ..s }
}

/// A new local.
#[verifier::opaque]
pub open spec fn declare(s: State, ty: TypeId, name: Option<Seq<char>>, origin: LocalOrigin) -> (State, LocalId) {
    let local = LocalId(s.locals.len() as usize);
    (
        State {
            locals: s.locals.push(LocalView { ty, source_name: name, origin }),
            parameters: if origin == LocalOrigin::Parameter {
                s.parameters.push(local)
            } else {
                s.parameters
            },
            ..s
        },
        local,
    )
}

/// The type that a type of the analysis became.
pub open spec fn mapped(c: Context, ty: SourceType) -> Result<TypeId, &'static str> {
    if ty.0 < c.types.len() && c.types[ty.0 as int] is Some {
        Ok(c.types[ty.0 as int]->0)
    } else {
        Err("frontend type identity is out of range")
    }
}

/// A new unnamed local.
#[verifier::opaque]
pub open spec fn temporary(c: Context, s: State, ty: SourceType) -> Outcome<LocalId> {
    match mapped(c, ty) {
        Err(fault) => Err(fault),
        Ok(ty) => Ok(declare(s, ty, None, LocalOrigin::Temporary)),
    }
}

} // verus!
