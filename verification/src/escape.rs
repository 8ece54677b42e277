//! Context-insensitive ownership escape summaries for typed IR.
//!
//! This deliberately models language values only. In particular it knows nothing about generated
//! C layouts, arena offsets, or allocation tags.

pub mod soundness;

use crate::ir::{
    Aggregate, AlternativeId, BasicBlock, BlockId, DefinitionLayout, FieldId, Function, FunctionId, LocalId,
    Operand, Operation, OperationKind, Place, PlaceView, Program, Projection, StructField, Terminator,
    TerminatorKind, Type, TypeId, UnionAlternative,
};
use crate::ir::validation::{
    ErrorView, OperationSite, alternatives_of, arguments_check, block_text, definition_at, function_text,
    header_check, operand_type, operands_expected, program_check, projected_type, site_text,
    struct_fields_check,
};
use crate::ir::validator::operand_type_of;
use crate::ir::validity::{
    lemma_valid_definition, lemma_valid_header, lemma_valid_local, lemma_valid_operation, lemma_valid_parameter,
    lemma_valid_payload, lemma_valid_struct_field, lemma_valid_target, lemma_valid_terminator,
    lemma_valid_tuple_field, lemma_valid_type, valid,
};
use crate::text::{Message, decimal, push_decimal};
use vstd::prelude::*;
use vstd::string::*;

verus! {

/// One construction of a struct.
#[derive(Clone, Copy, Debug, Eq, Hash, Ord, PartialEq, PartialOrd, Structural)]
pub struct AllocationId {
    pub function: FunctionId,
    pub block: BlockId,
    pub operation: usize,
}

/// How long an allocation lives.
#[derive(Clone, Copy, Debug, Eq, Ord, PartialEq, PartialOrd, Structural)]
pub enum AllocationClass {
    Scoped,
    Heap,
}

/// What callers know of a function.
#[derive(Clone, Debug, Eq, PartialEq)]
pub struct FunctionSummary {
    pub parameter_escapes: Vec<bool>,
    pub conservative: bool,
}

/// The contents of a function summary.
pub struct SummaryView {
    pub parameter_escapes: Seq<bool>,
    pub conservative: bool,
}

impl FunctionSummary {
    pub open spec fn view(&self) -> SummaryView {
        SummaryView { parameter_escapes: self.parameter_escapes@, conservative: self.conservative }
    }
}

/// The lifetime of every allocation of a program.
#[derive(Clone, Debug, Eq, PartialEq)]
pub struct AllocationPlan {
    pub summaries: Vec<FunctionSummary>,
    pub allocations: Vec<(AllocationId, AllocationClass)>,
    pub has_scoped: Vec<bool>,
}

/// Where a value can come from.
#[derive(Clone, Copy, Debug, Eq, Ord, PartialEq, PartialOrd, Structural)]
pub enum Origin {
    Parameter(usize),
    Allocation(AllocationId),
    ExternalHeap,
}

/// The types that a type holds, short of what stands behind a reference.
pub open spec fn held_types(p: &Program, ty: TypeId) -> Seq<TypeId> {
    match p.types@[ty.0 as int] {
        Type::Unit => seq![],
        Type::Primitive(_) => seq![],
        Type::List(element) => seq![element],
        Type::Mapping { key, value } => seq![key, value],
        Type::Nominal(definition) => match p.definitions@[definition.0 as int].layout {
            DefinitionLayout::Struct(_) => seq![],
            DefinitionLayout::Tuple(fields) => fields@,
            DefinitionLayout::Union(items) => items@.map_values(|item: UnionAlternative| item.payload),
        },
        Type::Union(items) => items@.map_values(|item: UnionAlternative| item.payload),
    }
}

pub open spec fn is_struct(p: &Program, ty: TypeId) -> bool {
    match p.types@[ty.0 as int] {
        Type::Nominal(definition) => p.definitions@[definition.0 as int].layout is Struct,
        _ => false,
    }
}

/// Whether a value of the type can hold a reference to a struct within the given depth.
pub open spec fn carries_within(p: &Program, ty: TypeId, depth: nat) -> bool
    decreases depth,
{
    is_struct(p, ty) || (depth > 0 && exists|i: int|
        0 <= i < held_types(p, ty).len() && carries_within(
            p,
            #[trigger] held_types(p, ty)[i],
            (depth - 1) as nat,
        ))
}

/// Whether a value of the type can hold a reference to a struct.
pub open spec fn carries(p: &Program, ty: TypeId) -> bool {
    exists|depth: nat| carries_within(p, ty, depth)
}

/// All types that a type is made of.
pub open spec fn member_types(p: &Program, ty: TypeId) -> Seq<TypeId> {
    match p.types@[ty.0 as int] {
        Type::Nominal(definition) => match p.definitions@[definition.0 as int].layout {
            DefinitionLayout::Struct(fields) => fields@.map_values(|field: StructField| field.ty),
            DefinitionLayout::Tuple(fields) => fields@,
            DefinitionLayout::Union(items) => items@.map_values(|item: UnionAlternative| item.payload),
        },
        Type::Union(items) => items@.map_values(|item: UnionAlternative| item.payload),
        _ => seq![],
    }
}

pub open spec fn is_carrying_container(p: &Program, ty: TypeId) -> bool {
    (p.types@[ty.0 as int] is List || p.types@[ty.0 as int] is Mapping) && carries(p, ty)
}

/// Whether a list or map of references stands within the given depth of a type.
pub open spec fn retains_within(p: &Program, ty: TypeId, depth: nat) -> bool
    decreases depth,
{
    is_carrying_container(p, ty) || (depth > 0 && exists|i: int|
        0 <= i < member_types(p, ty).len() && retains_within(
            p,
            #[trigger] member_types(p, ty)[i],
            (depth - 1) as nat,
        ))
}

/// Whether what a value of the type retains is not known.
pub open spec fn retention_unknown(p: &Program, ty: TypeId) -> bool {
    exists|depth: nat| retains_within(p, ty, depth)
}

/// The blocks that a terminator can go on to.
pub open spec fn successors(kind: TerminatorKind) -> Seq<BlockId> {
    match kind {
        TerminatorKind::Jump(target) => seq![target],
        TerminatorKind::Branch { then_block, else_block, .. } => seq![then_block, else_block],
        TerminatorKind::Switch { targets, .. } => targets@.map_values(
            |target: (AlternativeId, BlockId)| target.1,
        ),
        _ => seq![],
    }
}

/// The blocks that a block can go on to.
pub open spec fn block_successors(f: &Function, block: int) -> Seq<BlockId> {
    match f.blocks@[block].terminator {
        Some(terminator) => successors(terminator.kind),
        None => seq![],
    }
}

/// Whether a block can go on to another.
pub open spec fn leads(f: &Function, from: int, to: int) -> bool {
    exists|i: int| 0 <= i < block_successors(f, from).len() && (#[trigger] block_successors(f, from)[i]).0 == to
}

/// Whether control can come to a block in the given number of steps.
pub open spec fn reached(f: &Function, block: int, steps: nat) -> bool
    decreases steps,
{
    ||| f.entry is Some && f.entry->Some_0.0 == block
    ||| steps > 0 && exists|from: int|
        0 <= from < f.blocks@.len() && reached(f, from, (steps - 1) as nat) && #[trigger] leads(f, from, block)
}

/// Whether control can come to a block.
pub open spec fn reachable(f: &Function, block: int) -> bool {
    exists|steps: nat| reached(f, block, steps)
}

/// Whether an operand reads a local.
pub open spec fn reads(operand: Operand, local: LocalId) -> bool {
    match operand {
        Operand::Constant(_) => false,
        Operand::Copy(place) => place.local == local,
    }
}

/// The operation makes what `from` may hold something that `to` may hold.
pub open spec fn transfers(kind: OperationKind, from: LocalId, to: LocalId) -> bool {
    match kind {
        OperationKind::Copy { destination, operand } => destination == to && reads(operand, from),
        OperationKind::Assign { destination, value } => destination.local == to && destination.projections@.len() == 0
            && reads(value, from),
        OperationKind::Aggregate { destination, aggregate: Aggregate::Tuple { elements, .. } } => destination == to
            && exists|i: int| 0 <= i < elements@.len() && reads(#[trigger] elements@[i], from),
        OperationKind::UnionInject { destination, payload, .. } => destination == to && reads(payload, from),
        OperationKind::UnionPayload { destination, union, .. } => destination == to && reads(union, from),
        _ => false,
    }
}

/// The operation builds a struct.
pub open spec fn is_allocation(kind: OperationKind) -> bool {
    kind matches OperationKind::Aggregate { aggregate: Aggregate::Struct { .. }, .. }
}

pub open spec fn allocation_destination(kind: OperationKind) -> LocalId {
    match kind {
        OperationKind::Aggregate { destination, .. } => destination,
        _ => arbitrary(),
    }
}

/// The operation at a place of a function that control can come to.
pub open spec fn live_operation(f: &Function, block: int, index: int) -> bool {
    &&& 0 <= block < f.blocks@.len()
    &&& 0 <= index < f.blocks@[block].operations@.len()
    &&& reachable(f, block)
}

pub open spec fn operation_at(f: &Function, block: int, index: int) -> OperationKind {
    f.blocks@[block].operations@[index].kind
}

pub open spec fn allocation_at(function: int, block: int, index: int) -> AllocationId {
    AllocationId { function: FunctionId(function as usize), block: BlockId(block as usize), operation: index as usize }
}

/// The operation gives the local a value of the origin outright.
pub open spec fn introduces(
    p: &Program,
    function: int,
    block: int,
    index: int,
    local: LocalId,
    origin: Origin,
) -> bool {
    let f = &p.functions@[function];
    let kind = operation_at(f, block, index);
    match origin {
        Origin::Parameter(_) => false,
        Origin::Allocation(id) => is_allocation(kind) && allocation_destination(kind) == local && id == allocation_at(
            function,
            block,
            index,
        ),
        Origin::ExternalHeap => match kind {
            OperationKind::Call { destination, .. } => destination == local && carries(
                p,
                f.locals@[destination.0 as int].ty,
            ),
            _ => false,
        },
    }
}

/// The local is the parameter that the origin stands for, and can hold references.
pub open spec fn is_parameter_origin(p: &Program, f: &Function, local: LocalId, origin: Origin) -> bool {
    match origin {
        Origin::Parameter(position) => position < f.parameters@.len() && f.parameters@[position as int] == local
            && carries(p, f.locals@[local.0 as int].ty),
        _ => false,
    }
}

/// Whether a local may hold a value of the origin, by a chain of at most the given length.
pub open spec fn holds_within(p: &Program, function: int, local: LocalId, origin: Origin, steps: nat) -> bool
    decreases steps,
{
    let f = &p.functions@[function];
    ||| is_parameter_origin(p, f, local, origin)
    ||| exists|block: int, index: int| #[trigger]
        live_operation(f, block, index) && introduces(p, function, block, index, local, origin)
    ||| steps > 0 && exists|from: LocalId|
        holds_within(p, function, from, origin, (steps - 1) as nat) && #[trigger] moves(f, from, local)
}

/// Some live operation moves what one local holds to another.
pub open spec fn moves(f: &Function, from: LocalId, to: LocalId) -> bool {
    exists|block: int, index: int| #[trigger]
        live_operation(f, block, index) && transfers(operation_at(f, block, index), from, to)
}

/// Whether a local may hold a value of the origin.
pub open spec fn holds(p: &Program, function: int, local: LocalId, origin: Origin) -> bool {
    exists|steps: nat| holds_within(p, function, local, origin, steps)
}

/// Whether an operand may be a value of the origin.
pub open spec fn yields(p: &Program, function: int, operand: Operand, origin: Origin) -> bool {
    match operand {
        Operand::Constant(_) => false,
        Operand::Copy(place) => holds(p, function, place.local, origin),
    }
}

/// The place is a field of a struct.
pub open spec fn is_field_place(place: PlaceView) -> bool {
    exists|i: int| 0 <= i < place.projections.len() && #[trigger] place.projections[i] is StructField
}

/// Whether the operation may store a value of one origin in what has another origin.
pub open spec fn stores(p: &Program, function: int, block: int, index: int, owner: Origin, child: Origin) -> bool {
    let f = &p.functions@[function];
    match operation_at(f, block, index) {
        OperationKind::Aggregate { aggregate: Aggregate::Struct { fields, .. }, .. } => owner == Origin::Allocation(
            allocation_at(function, block, index),
        ) && exists|i: int| 0 <= i < fields@.len() && yields(p, function, (#[trigger] fields@[i]).1, child),
        OperationKind::Assign { destination, value } => is_field_place(destination@) && holds(
            p,
            function,
            destination.local,
            owner,
        ) && yields(p, function, value, child),
        _ => false,
    }
}

/// Whether some live operation may store a value of one origin in what has another.
pub open spec fn owns(p: &Program, function: int, owner: Origin, child: Origin) -> bool {
    exists|block: int, index: int| #[trigger]
        live_operation(&p.functions@[function], block, index) && stores(p, function, block, index, owner, child)
}

/// Whether a call lets go of the argument at a position.
pub open spec fn lets_escape(summary: SummaryView, position: int) -> bool {
    position >= summary.parameter_escapes.len() || summary.parameter_escapes[position]
}

/// Whether the operation lets a value of the origin out of the function.
pub open spec fn releases(
    p: &Program,
    function: int,
    summaries: Seq<SummaryView>,
    block: int,
    index: int,
    origin: Origin,
) -> bool {
    let f = &p.functions@[function];
    match operation_at(f, block, index) {
        OperationKind::Assign { destination, value } => is_field_place(destination@) && yields(
            p,
            function,
            value,
            origin,
        ) && holds_outside(p, function, destination.local),
        OperationKind::Call { function: callee, arguments, .. } => exists|i: int|
            0 <= i < arguments@.len() && lets_escape(summaries[callee.0 as int], i) && yields(
                p,
                function,
                #[trigger] arguments@[i],
                origin,
            ),
        _ => false,
    }
}

/// Whether a local may hold something that lives outside the function.
pub open spec fn holds_outside(p: &Program, function: int, local: LocalId) -> bool {
    holds(p, function, local, Origin::ExternalHeap) || exists|position: usize| #[trigger]
        holds(p, function, local, Origin::Parameter(position))
}

/// Whether a live block returns a value of the origin.
pub open spec fn returns_origin(p: &Program, function: int, block: int, origin: Origin) -> bool {
    let f = &p.functions@[function];
    &&& 0 <= block < f.blocks@.len()
    &&& reachable(f, block)
    &&& match f.blocks@[block].terminator {
        Some(terminator) => match terminator.kind {
            TerminatorKind::Return(value) => yields(p, function, value, origin),
            _ => false,
        },
        None => false,
    }
}

/// The operation keeps values in a way that is not followed.
pub open spec fn unknown_operation(p: &Program, function: int, kind: OperationKind) -> bool {
    match kind {
        OperationKind::Aggregate { aggregate: Aggregate::List { ty, .. }, .. } => carries(p, ty),
        OperationKind::Aggregate { aggregate: Aggregate::Mapping { ty, .. }, .. } => carries(p, ty),
        OperationKind::Builtin { receiver, arguments, .. } => operand_carries(p, function, receiver) || exists|i: int|
            0 <= i < arguments@.len() && operand_carries(p, function, #[trigger] arguments@[i]),
        OperationKind::BeginIteration { iterable } => operand_carries(p, function, iterable),
        OperationKind::EndIteration { iterable } => operand_carries(p, function, iterable),
        OperationKind::IterationValue { iterable, .. } => operand_carries(p, function, iterable),
        _ => false,
    }
}

/// Whether the type of an operand can hold references.
pub open spec fn operand_carries(p: &Program, function: int, operand: Operand) -> bool {
    match crate::ir::validation::operand_type(p, Some(FunctionId(function as usize)), &p.functions@[function], &operand) {
        Ok(ty) => carries(p, ty),
        Err(_) => false,
    }
}

/// Whether not everything that the function keeps is followed.
pub open spec fn conservative(p: &Program, function: int) -> bool {
    let f = &p.functions@[function];
    ||| exists|i: int| 0 <= i < f.locals@.len() && retention_unknown(p, (#[trigger] f.locals@[i]).ty)
    ||| exists|block: int, index: int| #[trigger]
        live_operation(f, block, index) && unknown_operation(p, function, operation_at(f, block, index))
}

/// Whether a value of the origin escapes at once.
pub open spec fn escapes_directly(p: &Program, function: int, summaries: Seq<SummaryView>, origin: Origin) -> bool {
    let f = &p.functions@[function];
    ||| exists|block: int, index: int| #[trigger]
        live_operation(f, block, index) && releases(p, function, summaries, block, index, origin)
    ||| exists|block: int| #[trigger] returns_origin(p, function, block, origin)
    ||| conservative(p, function) && (exists|local: LocalId| #[trigger] is_parameter_origin(p, f, local, origin))
}

/// Whether a value of the origin escapes, by a chain of owners of at most the given length.
pub open spec fn escapes_within(
    p: &Program,
    function: int,
    summaries: Seq<SummaryView>,
    origin: Origin,
    steps: nat,
) -> bool
    decreases steps,
{
    ||| escapes_directly(p, function, summaries, origin)
    ||| steps > 0 && exists|owner: Origin|
        escapes_within(p, function, summaries, owner, (steps - 1) as nat) && #[trigger] owns(
            p,
            function,
            owner,
            origin,
        )
}

/// Whether a value of the origin escapes from the function.
pub open spec fn escapes(p: &Program, function: int, summaries: Seq<SummaryView>, origin: Origin) -> bool {
    exists|steps: nat| escapes_within(p, function, summaries, origin, steps)
}

/// Whether a function calls another where control can come.
pub open spec fn calls(p: &Program, function: int, callee: int) -> bool {
    exists|block: int, index: int| #[trigger]
        live_operation(&p.functions@[function], block, index) && match operation_at(
            &p.functions@[function],
            block,
            index,
        ) {
            OperationKind::Call { function: called, .. } => called.0 == callee,
            _ => false,
        }
}

/// Whether chains of calls from the function end within the given length.
pub open spec fn resolved_within(p: &Program, function: int, depth: nat) -> bool
    decreases depth,
{
    depth > 0 && forall|callee: int| #[trigger]
        calls(p, function, callee) ==> resolved_within(p, callee, (depth - 1) as nat)
}

/// Whether no chain of calls from the function comes back to a function on it.
pub open spec fn resolved(p: &Program, function: int) -> bool {
    exists|depth: nat| resolved_within(p, function, depth)
}

/// What callers know of a function, given what is known of the functions that it calls.
pub open spec fn summary_of(p: &Program, function: int, summaries: Seq<SummaryView>) -> SummaryView {
    let f = &p.functions@[function];
    if resolved(p, function) {
        SummaryView {
            parameter_escapes: Seq::new(
                f.parameters@.len(),
                |i: int| escapes(p, function, summaries, Origin::Parameter(i as usize)),
            ),
            conservative: conservative(p, function),
        }
    } else {
        SummaryView {
            parameter_escapes: Seq::new(
                f.parameters@.len(),
                |i: int| carries(p, f.locals@[f.parameters@[i].0 as int].ty),
            ),
            conservative: true,
        }
    }
}

/// How long the struct built by an operation lives.
pub open spec fn class_of(
    p: &Program,
    function: int,
    summaries: Seq<SummaryView>,
    block: int,
    index: int,
) -> AllocationClass {
    let f = &p.functions@[function];
    if resolved(p, function) && !conservative(p, function) && reachable(f, block) && !escapes(
        p,
        function,
        summaries,
        Origin::Allocation(allocation_at(function, block, index)),
    ) {
        AllocationClass::Scoped
    } else {
        AllocationClass::Heap
    }
}

/// How many of the first `count` entries are not set.
pub open spec fn unset(bits: Seq<bool>, count: nat) -> nat
    decreases count,
{
    if count == 0 {
        0
    } else {
        unset(bits, (count - 1) as nat) + if bits[count - 1] {
            0nat
        } else {
            1nat
        }
    }
}

proof fn lemma_set_more(bits: Seq<bool>, more: Seq<bool>, count: nat)
    requires
        count <= bits.len() == more.len(),
        forall|i: int| 0 <= i < bits.len() && bits[i] ==> #[trigger] more[i],
    ensures
        unset(more, count) <= unset(bits, count),
        (exists|i: int| 0 <= i < count && !bits[i] && #[trigger] more[i]) ==> unset(more, count) < unset(bits, count),
    decreases count,
{
    if count > 0 {
        lemma_set_more(bits, more, (count - 1) as nat);
        if exists|i: int| 0 <= i < count && !bits[i] && #[trigger] more[i] {
            let i = choose|i: int| 0 <= i < count && !bits[i] && #[trigger] more[i];
            if i < count - 1 {
                assert(0 <= i < (count - 1) as nat && !bits[i] && more[i]);
            }
        }
    }
}

/// How far a table can still grow.
pub open spec fn room(bits: Seq<bool>) -> nat {
    unset(bits, bits.len())
}

/// Sets an entry, and notes whether that changed anything.
fn mark(bits: &mut Vec<bool>, index: usize, changed: &mut bool)
    requires
        index < old(bits)@.len(),
    ensures
        final(bits)@ == old(bits)@.update(index as int, true),
        *final(changed) == (*old(changed) || !old(bits)@[index as int]),
        !*final(changed) ==> final(bits)@ == old(bits)@,
        room(final(bits)@) <= room(old(bits)@),
        *final(changed) && !*old(changed) ==> room(final(bits)@) < room(old(bits)@),
{
    let ghost before = bits@;
    if !bits[index] {
        bits.set(index, true);
        *changed = true;
        proof {
            assert(!before[index as int] && bits@[index as int]);
            lemma_set_more(before, bits@, bits@.len());
        }
    } else {
        assert(bits@.update(index as int, true) =~= bits@);
    }
}

fn cleared(count: usize) -> (result: Vec<bool>)
    ensures
        result@ == Seq::new(count as nat, |i: int| false),
{
    let mut bits: Vec<bool> = Vec::new();
    while bits.len() < count
        invariant
            bits@.len() <= count,
            forall|i: int| 0 <= i < bits@.len() ==> !bits@[i],
        decreases count - bits@.len(),
    {
        bits.push(false);
    }
    assert(bits@ =~= Seq::new(count as nat, |i: int| false));
    bits
}

/// The types that a type of a valid program holds are types of it.
proof fn lemma_held_types(p: &Program, ty: TypeId)
    requires
        valid(p),
        ty.0 < p.types@.len(),
    ensures
        forall|i: int| 0 <= i < held_types(p, ty).len() ==> (#[trigger] held_types(p, ty)[i]).0 < p.types@.len(),
        forall|i: int| 0 <= i < member_types(p, ty).len() ==> (#[trigger] member_types(p, ty)[i]).0 < p.types@.len(),
        p.types@[ty.0 as int] matches Type::Nominal(definition) ==> definition.0 < p.definitions@.len(),
{
    lemma_valid_type(p, ty.0 as int);
    match p.types@[ty.0 as int] {
        Type::Nominal(definition) => {
            lemma_valid_definition(p, definition.0 as int);
            match p.definitions@[definition.0 as int].layout {
                DefinitionLayout::Struct(fields) => {
                    assert forall|i: int| 0 <= i < fields@.len() implies (#[trigger] fields@[i]).ty.0 < p.types@.len() by {
                        lemma_valid_struct_field(p, definition, fields@, 0, i);
                    }
                },
                DefinitionLayout::Tuple(fields) => {
                    assert forall|i: int| 0 <= i < fields@.len() implies (#[trigger] fields@[i]).0 < p.types@.len() by {
                        lemma_valid_tuple_field(p, fields@, 0, i);
                    }
                },
                DefinitionLayout::Union(items) => {
                    assert forall|i: int| 0 <= i < items@.len() implies (#[trigger] items@[i]).payload.0 < p.types@.len() by {
                        lemma_valid_payload(p, definition.text(), items@, 0, i);
                    }
                },
            }
        },
        Type::Union(items) => {
            assert forall|i: int| 0 <= i < items@.len() implies (#[trigger] items@[i]).payload.0 < p.types@.len() by {
                lemma_valid_payload(p, ty.text(), items@, 0, i);
            }
        },
        _ => {},
    }
}

/// Whether one of the types is set in a table.
fn any_set(types: &Vec<TypeId>, table: &Vec<bool>) -> (result: bool)
    requires
        forall|i: int| 0 <= i < types@.len() ==> (#[trigger] types@[i]).0 < table@.len(),
    ensures
        result == exists|i: int| 0 <= i < types@.len() && table@[(#[trigger] types@[i]).0 as int],
{
    let mut index: usize = 0;
    while index < types.len()
        invariant
            index <= types@.len(),
            forall|i: int| 0 <= i < types@.len() ==> (#[trigger] types@[i]).0 < table@.len(),
            forall|i: int| 0 <= i < index ==> !table@[(#[trigger] types@[i]).0 as int],
        decreases types@.len() - index,
    {
        if table[types[index].0] {
            return true;
        }
        index = index + 1;
    }
    false
}

/// The payloads of alternatives.
fn payloads(items: &Vec<UnionAlternative>) -> (result: Vec<TypeId>)
    ensures
        result@ == items@.map_values(|item: UnionAlternative| item.payload),
{
    let mut types: Vec<TypeId> = Vec::new();
    let mut index: usize = 0;
    while index < items.len()
        invariant
            index <= items@.len(),
            types@ == items@.take(index as int).map_values(|item: UnionAlternative| item.payload),
        decreases items@.len() - index,
    {
        types.push(items[index].payload);
        index = index + 1;
        assert(types@ =~= items@.take(index as int).map_values(|item: UnionAlternative| item.payload));
    }
    assert(items@.take(index as int) =~= items@);
    types
}

fn copied(types: &Vec<TypeId>) -> (result: Vec<TypeId>)
    ensures
        result@ == types@,
{
    let mut copy: Vec<TypeId> = Vec::new();
    let mut index: usize = 0;
    while index < types.len()
        invariant
            index <= types@.len(),
            copy@ == types@.take(index as int),
        decreases types@.len() - index,
    {
        copy.push(types[index]);
        index = index + 1;
        assert(copy@ =~= types@.take(index as int));
    }
    assert(types@.take(index as int) =~= types@);
    copy
}

fn held(p: &Program, ty: TypeId) -> (result: Vec<TypeId>)
    requires
        valid(p),
        ty.0 < p.types@.len(),
    ensures
        result@ == held_types(p, ty),
{
    proof {
        lemma_held_types(p, ty);
    }
    let mut types: Vec<TypeId> = Vec::new();
    match &p.types[ty.0] {
        Type::Unit => {},
        Type::Primitive(_) => {},
        Type::List(element) => types.push(*element),
        Type::Mapping { key, value } => {
            types.push(*key);
            types.push(*value);
        },
        Type::Nominal(definition) => match &p.definitions[definition.0].layout {
            DefinitionLayout::Struct(_) => {},
            DefinitionLayout::Tuple(fields) => {
                types = copied(fields);
            },
            DefinitionLayout::Union(items) => {
                types = payloads(items);
            },
        },
        Type::Union(items) => {
            types = payloads(items);
        },
    }
    assert(types@ =~= held_types(p, ty));
    types
}

fn members(p: &Program, ty: TypeId) -> (result: Vec<TypeId>)
    requires
        valid(p),
        ty.0 < p.types@.len(),
    ensures
        result@ == member_types(p, ty),
{
    proof {
        lemma_held_types(p, ty);
    }
    let mut types: Vec<TypeId> = Vec::new();
    match &p.types[ty.0] {
        Type::Nominal(definition) => match &p.definitions[definition.0].layout {
            DefinitionLayout::Struct(fields) => {
                let mut index: usize = 0;
                while index < fields.len()
                    invariant
                        index <= fields@.len(),
                        types@ == fields@.take(index as int).map_values(|field: StructField| field.ty),
                    decreases fields@.len() - index,
                {
                    types.push(fields[index].ty);
                    index = index + 1;
                    assert(types@ =~= fields@.take(index as int).map_values(|field: StructField| field.ty));
                }
                assert(fields@.take(index as int) =~= fields@);
            },
            DefinitionLayout::Tuple(fields) => {
                types = copied(fields);
            },
            DefinitionLayout::Union(items) => {
                types = payloads(items);
            },
        },
        Type::Union(items) => {
            types = payloads(items);
        },
        _ => {},
    }
    assert(types@ =~= member_types(p, ty));
    types
}

fn is_struct_type(p: &Program, ty: TypeId) -> (result: bool)
    requires
        valid(p),
        ty.0 < p.types@.len(),
    ensures
        result == is_struct(p, ty),
{
    proof {
        lemma_held_types(p, ty);
    }
    match &p.types[ty.0] {
        Type::Nominal(definition) => match &p.definitions[definition.0].layout {
            DefinitionLayout::Struct(_) => true,
            _ => false,
        },
        _ => false,
    }
}

/// The table says of each type whether it can hold references.
pub open spec fn is_carrying_table(p: &Program, table: Seq<bool>) -> bool {
    &&& table.len() == p.types@.len()
    &&& forall|i: int| 0 <= i < table.len() ==> #[trigger] table[i] == carries(p, TypeId(i as usize))
}

proof fn lemma_carries_step(p: &Program, ty: TypeId, i: int)
    requires
        0 <= i < held_types(p, ty).len(),
        carries(p, held_types(p, ty)[i]),
    ensures
        carries(p, ty),
{
    let depth = choose|depth: nat| carries_within(p, held_types(p, ty)[i], depth);
    assert(carries_within(p, ty, depth + 1));
}

/// A table that is closed under holding has every type that can hold references.
proof fn lemma_carries_closed(p: &Program, table: Seq<bool>, ty: TypeId, depth: nat)
    requires
        valid(p),
        table.len() == p.types@.len(),
        ty.0 < p.types@.len(),
        forall|t: int|
            0 <= t < table.len() && (is_struct(p, TypeId(t as usize)) || exists|i: int|
                0 <= i < held_types(p, TypeId(t as usize)).len() && table[(#[trigger] held_types(
                    p,
                    TypeId(t as usize),
                )[i]).0 as int]) ==> #[trigger] table[t],
        carries_within(p, ty, depth),
    ensures
        table[ty.0 as int],
    decreases depth,
{
    assert(TypeId(ty.0 as int as usize) == ty);
    if !is_struct(p, ty) {
        let i = choose|i: int|
            0 <= i < held_types(p, ty).len() && carries_within(
                p,
                #[trigger] held_types(p, ty)[i],
                (depth - 1) as nat,
            );
        lemma_held_types(p, ty);
        lemma_carries_closed(p, table, held_types(p, ty)[i], (depth - 1) as nat);
    }
}

/// Which types can hold references.
fn carrying_types(p: &Program) -> (result: Vec<bool>)
    requires
        valid(p),
    ensures
        is_carrying_table(p, result@),
{
    let mut table = cleared(p.types.len());
    loop
        invariant
            valid(p),
            table@.len() == p.types@.len(),
            forall|t: int| 0 <= t < table@.len() && #[trigger] table@[t] ==> carries(p, TypeId(t as usize)),
        ensures
            is_carrying_table(p, table@),
        decreases room(table@),
    {
        let ghost before = table@;
        let mut changed = false;
        let mut index: usize = 0;
        while index < p.types.len()
            invariant
                valid(p),
                index <= p.types@.len() == table@.len(),
                room(table@) <= room(before),
                changed ==> room(table@) < room(before),
                forall|t: int| 0 <= t < table@.len() && #[trigger] table@[t] ==> carries(p, TypeId(t as usize)),
                !changed ==> forall|t: int|
                    0 <= t < index && (is_struct(p, TypeId(t as usize)) || exists|i: int|
                        0 <= i < held_types(p, TypeId(t as usize)).len() && table@[(#[trigger] held_types(
                            p,
                            TypeId(t as usize),
                        )[i]).0 as int]) ==> #[trigger] table@[t],
            decreases p.types@.len() - index,
        {
            let ty = TypeId(index);
            proof {
                lemma_held_types(p, ty);
            }
            if is_struct_type(p, ty) || any_set(&held(p, ty), &table) {
                proof {
                    if is_struct(p, ty) {
                        assert(carries_within(p, ty, 0));
                    } else {
                        let i = choose|i: int|
                            0 <= i < held_types(p, ty).len() && table@[(#[trigger] held_types(p, ty)[i]).0 as int];
                        let inner = held_types(p, ty)[i];
                        assert(TypeId(inner.0 as int as usize) == inner);
                        lemma_carries_step(p, ty, i);
                    }
                }
                mark(&mut table, index, &mut changed);
            }
            index = index + 1;
        }
        if !changed {
            proof {
                assert forall|t: int| 0 <= t < table@.len() implies #[trigger] table@[t] == carries(
                    p,
                    TypeId(t as usize),
                ) by {
                    if carries(p, TypeId(t as usize)) {
                        let ty = TypeId(t as usize);
                        let depth = choose|depth: nat| carries_within(p, ty, depth);
                        lemma_carries_closed(p, table@, ty, depth);
                    }
                }
            }
            break;
        }
    }
    table
}

/// The table says of each type whether what its values retain is not known.
pub open spec fn is_retention_table(p: &Program, table: Seq<bool>) -> bool {
    &&& table.len() == p.types@.len()
    &&& forall|i: int| 0 <= i < table.len() ==> #[trigger] table[i] == retention_unknown(p, TypeId(i as usize))
}

proof fn lemma_retains_step(p: &Program, ty: TypeId, i: int)
    requires
        0 <= i < member_types(p, ty).len(),
        retention_unknown(p, member_types(p, ty)[i]),
    ensures
        retention_unknown(p, ty),
{
    let depth = choose|depth: nat| retains_within(p, member_types(p, ty)[i], depth);
    assert(retains_within(p, ty, depth + 1));
}

proof fn lemma_retains_closed(p: &Program, table: Seq<bool>, ty: TypeId, depth: nat)
    requires
        valid(p),
        table.len() == p.types@.len(),
        ty.0 < p.types@.len(),
        forall|t: int|
            0 <= t < table.len() && (is_carrying_container(p, TypeId(t as usize)) || exists|i: int|
                0 <= i < member_types(p, TypeId(t as usize)).len() && table[(#[trigger] member_types(
                    p,
                    TypeId(t as usize),
                )[i]).0 as int]) ==> #[trigger] table[t],
        retains_within(p, ty, depth),
    ensures
        table[ty.0 as int],
    decreases depth,
{
    assert(TypeId(ty.0 as int as usize) == ty);
    if !is_carrying_container(p, ty) {
        let i = choose|i: int|
            0 <= i < member_types(p, ty).len() && retains_within(
                p,
                #[trigger] member_types(p, ty)[i],
                (depth - 1) as nat,
            );
        lemma_held_types(p, ty);
        lemma_retains_closed(p, table, member_types(p, ty)[i], (depth - 1) as nat);
    }
}

/// Of which types it is not known what their values retain.
fn retaining_types(p: &Program, carrying: &Vec<bool>) -> (result: Vec<bool>)
    requires
        valid(p),
        is_carrying_table(p, carrying@),
    ensures
        is_retention_table(p, result@),
{
    let mut table = cleared(p.types.len());
    loop
        invariant
            valid(p),
            is_carrying_table(p, carrying@),
            table@.len() == p.types@.len(),
            forall|t: int| 0 <= t < table@.len() && #[trigger] table@[t] ==> retention_unknown(p, TypeId(t as usize)),
        ensures
            is_retention_table(p, table@),
        decreases room(table@),
    {
        let ghost before = table@;
        let mut changed = false;
        let mut index: usize = 0;
        while index < p.types.len()
            invariant
                valid(p),
                is_carrying_table(p, carrying@),
                index <= p.types@.len() == table@.len(),
                room(table@) <= room(before),
                changed ==> room(table@) < room(before),
                forall|t: int|
                    0 <= t < table@.len() && #[trigger] table@[t] ==> retention_unknown(p, TypeId(t as usize)),
                !changed ==> forall|t: int|
                    0 <= t < index && (is_carrying_container(p, TypeId(t as usize)) || exists|i: int|
                        0 <= i < member_types(p, TypeId(t as usize)).len() && table@[(#[trigger] member_types(
                            p,
                            TypeId(t as usize),
                        )[i]).0 as int]) ==> #[trigger] table@[t],
            decreases p.types@.len() - index,
        {
            let ty = TypeId(index);
            proof {
                lemma_held_types(p, ty);
            }
            let container = match &p.types[index] {
                Type::List(_) => carrying[index],
                Type::Mapping { .. } => carrying[index],
                _ => false,
            };
            assert(container == is_carrying_container(p, ty));
            if container || any_set(&members(p, ty), &table) {
                proof {
                    if container {
                        assert(retains_within(p, ty, 0));
                    } else {
                        let i = choose|i: int|
                            0 <= i < member_types(p, ty).len() && table@[(#[trigger] member_types(p, ty)[i]).0 as int];
                        let inner = member_types(p, ty)[i];
                        assert(TypeId(inner.0 as int as usize) == inner);
                        lemma_retains_step(p, ty, i);
                    }
                }
                mark(&mut table, index, &mut changed);
            }
            index = index + 1;
        }
        if !changed {
            proof {
                assert forall|t: int| 0 <= t < table@.len() implies #[trigger] table@[t] == retention_unknown(
                    p,
                    TypeId(t as usize),
                ) by {
                    if retention_unknown(p, TypeId(t as usize)) {
                        let ty = TypeId(t as usize);
                        let depth = choose|depth: nat| retains_within(p, ty, depth);
                        lemma_retains_closed(p, table@, ty, depth);
                    }
                }
            }
            break;
        }
    }
    table
}

/// The blocks that a block of a valid program can go on to are blocks of its function.
proof fn lemma_successors(p: &Program, function: int, block: int)
    requires
        valid(p),
        0 <= function < p.functions@.len(),
        0 <= block < p.functions@[function].blocks@.len(),
    ensures
        p.functions@[function].blocks@[block].terminator is Some,
        forall|i: int|
            0 <= i < block_successors(&p.functions@[function], block).len() ==> (#[trigger] block_successors(
                &p.functions@[function],
                block,
            )[i]).0 < p.functions@[function].blocks@.len(),
{
    let f = &p.functions@[function];
    lemma_valid_terminator(p, function, block);
    match f.blocks@[block].terminator->Some_0.kind {
        TerminatorKind::Switch { union, targets } => {
            let ty = operand_type(p, Some(FunctionId(function as usize)), f, &union)->Ok_0;
            let alternatives = alternatives_of(p, ty)->Ok_0;
            assert forall|i: int| 0 <= i < targets@.len() implies (#[trigger] targets@[i]).1.0 < f.blocks@.len() by {
                lemma_valid_target(f, alternatives.len(), targets@, 0, i);
            }
        },
        _ => {},
    }
}

fn next_blocks(block: &BasicBlock) -> (result: Vec<BlockId>)
    ensures
        result@ == (match block.terminator {
            Some(terminator) => successors(terminator.kind),
            None => seq![],
        }),
{
    let mut blocks: Vec<BlockId> = Vec::new();
    if let Some(terminator) = &block.terminator {
        match &terminator.kind {
            TerminatorKind::Jump(target) => blocks.push(*target),
            TerminatorKind::Branch { then_block, else_block, .. } => {
                blocks.push(*then_block);
                blocks.push(*else_block);
            },
            TerminatorKind::Switch { targets, .. } => {
                let mut index: usize = 0;
                while index < targets.len()
                    invariant
                        index <= targets@.len(),
                        blocks@ == targets@.take(index as int).map_values(
                            |target: (AlternativeId, BlockId)| target.1,
                        ),
                    decreases targets@.len() - index,
                {
                    blocks.push(targets[index].1);
                    index = index + 1;
                    assert(blocks@ =~= targets@.take(index as int).map_values(
                        |target: (AlternativeId, BlockId)| target.1,
                    ));
                }
                assert(targets@.take(index as int) =~= targets@);
            },
            _ => {},
        }
        assert(blocks@ =~= successors(terminator.kind));
    }
    blocks
}

/// The table says of each block whether control can come to it.
pub open spec fn is_reach_table(f: &Function, table: Seq<bool>) -> bool {
    &&& table.len() == f.blocks@.len()
    &&& forall|b: int| 0 <= b < table.len() ==> #[trigger] table[b] == reachable(f, b)
}

proof fn lemma_reach_closed(p: &Program, function: int, table: Seq<bool>, block: int, steps: nat)
    requires
        valid(p),
        0 <= function < p.functions@.len(),
        table.len() == p.functions@[function].blocks@.len(),
        0 <= block < table.len(),
        p.functions@[function].entry matches Some(entry) && table[entry.0 as int],
        forall|b: int, i: int|
            0 <= b < table.len() && table[b] && 0 <= i < block_successors(&p.functions@[function], b).len()
                ==> table[(#[trigger] block_successors(&p.functions@[function], b)[i]).0 as int],
        reached(&p.functions@[function], block, steps),
    ensures
        table[block],
    decreases steps,
{
    let f = &p.functions@[function];
    if !(f.entry is Some && f.entry->Some_0.0 == block) {
        let from = choose|from: int|
            0 <= from < f.blocks@.len() && reached(f, from, (steps - 1) as nat) && #[trigger] leads(f, from, block);
        lemma_reach_closed(p, function, table, from, (steps - 1) as nat);
        let i = choose|i: int| 0 <= i < block_successors(f, from).len() && (#[trigger] block_successors(f, from)[i]).0 == block;
        assert(table[block_successors(f, from)[i].0 as int]);
    }
}

fn reachable_blocks(p: &Program, function: usize) -> (result: Vec<bool>)
    requires
        valid(p),
        function < p.functions@.len(),
    ensures
        is_reach_table(&p.functions@[function as int], result@),
{
    let f = &p.functions[function];
    let mut table = cleared(f.blocks.len());
    proof {
        lemma_valid_header(p, function as int);
    }
    if let Some(entry) = f.entry {
        assert(reached(f, entry.0 as int, 0));
        table.set(entry.0, true);
    }
    loop
        invariant
            valid(p),
            function < p.functions@.len(),
            f == &p.functions@[function as int],
            table@.len() == f.blocks@.len(),
            f.entry matches Some(entry) && entry.0 < table@.len() && table@[entry.0 as int],
            forall|b: int| 0 <= b < table@.len() && #[trigger] table@[b] ==> reachable(f, b),
        ensures
            is_reach_table(f, table@),
        decreases room(table@),
    {
        let ghost before = table@;
        let mut changed = false;
        let mut index: usize = 0;
        while index < f.blocks.len()
            invariant
                valid(p),
                function < p.functions@.len(),
                f == &p.functions@[function as int],
                index <= f.blocks@.len() == table@.len(),
                f.entry matches Some(entry) && entry.0 < table@.len() && table@[entry.0 as int],
                room(table@) <= room(before),
                changed ==> room(table@) < room(before),
                forall|b: int| 0 <= b < table@.len() && #[trigger] table@[b] ==> reachable(f, b),
                !changed ==> forall|b: int, i: int|
                    0 <= b < index && table@[b] && 0 <= i < block_successors(f, b).len()
                        ==> table@[(#[trigger] block_successors(f, b)[i]).0 as int],
            decreases f.blocks@.len() - index,
        {
            if table[index] {
                let targets = next_blocks(&f.blocks[index]);
                proof {
                    lemma_successors(p, function as int, index as int);
                }
                assert(targets@ == block_successors(f, index as int));
                let mut which: usize = 0;
                while which < targets.len()
                    invariant
                        which <= targets@.len(),
                        index < f.blocks@.len() == table@.len(),
                        targets@ == block_successors(f, index as int),
                        forall|i: int|
                            0 <= i < block_successors(f, index as int).len() ==> (#[trigger] block_successors(
                                f,
                                index as int,
                            )[i]).0 < f.blocks@.len(),
                        f.entry matches Some(entry) && entry.0 < table@.len() && table@[entry.0 as int],
                        room(table@) <= room(before),
                        changed ==> room(table@) < room(before),
                        reachable(f, index as int),
                        forall|b: int| 0 <= b < table@.len() && #[trigger] table@[b] ==> reachable(f, b),
                        !changed ==> forall|b: int, i: int|
                            0 <= b < index && table@[b] && 0 <= i < block_successors(f, b).len()
                                ==> table@[(#[trigger] block_successors(f, b)[i]).0 as int],
                        !changed ==> forall|i: int|
                            0 <= i < which ==> table@[(#[trigger] block_successors(f, index as int)[i]).0 as int],
                    decreases targets@.len() - which,
                {
                    let target = targets[which];
                    proof {
                        let steps = choose|steps: nat| reached(f, index as int, steps);
                        assert(block_successors(f, index as int)[which as int] == target);
                        assert(leads(f, index as int, target.0 as int));
                        assert(reached(f, index as int, ((steps + 1) - 1) as nat));
                        assert(reached(f, target.0 as int, steps + 1));
                    }
                    mark(&mut table, target.0, &mut changed);
                    which = which + 1;
                }
            }
            index = index + 1;
        }
        if !changed {
            proof {
                assert forall|b: int| 0 <= b < table@.len() implies #[trigger] table@[b] == reachable(f, b) by {
                    if reachable(f, b) {
                        let steps = choose|steps: nat| reached(f, b, steps);
                        lemma_reach_closed(p, function as int, table@, b, steps);
                    }
                }
            }
            break;
        }
    }
    table
}

/// The operand is well-formed in its function.
pub open spec fn operand_fits(p: &Program, function: int, operand: Operand) -> bool {
    operand_type(p, Some(FunctionId(function as usize)), &p.functions@[function], &operand) is Ok
}

/// What of an operation escape analysis relies on.
pub open spec fn operation_fits(p: &Program, function: int, kind: OperationKind) -> bool {
    let f = &p.functions@[function];
    match kind {
        OperationKind::Copy { destination, operand } => destination.0 < f.locals@.len() && operand_fits(
            p,
            function,
            operand,
        ),
        OperationKind::Assign { destination, value } => destination.local.0 < f.locals@.len() && operand_fits(
            p,
            function,
            value,
        ),
        OperationKind::Aggregate { destination, aggregate } => destination.0 < f.locals@.len() && match aggregate {
            Aggregate::Struct { fields, .. } => forall|i: int|
                0 <= i < fields@.len() ==> operand_fits(p, function, (#[trigger] fields@[i]).1),
            Aggregate::Tuple { elements, .. } => forall|i: int|
                0 <= i < elements@.len() ==> operand_fits(p, function, #[trigger] elements@[i]),
            Aggregate::List { ty, .. } => ty.0 < p.types@.len(),
            Aggregate::Mapping { ty, .. } => ty.0 < p.types@.len(),
        },
        OperationKind::UnionInject { destination, payload, .. } => destination.0 < f.locals@.len() && operand_fits(
            p,
            function,
            payload,
        ),
        OperationKind::UnionPayload { destination, union, .. } => destination.0 < f.locals@.len() && operand_fits(
            p,
            function,
            union,
        ),
        OperationKind::Call { destination, function: callee, arguments } => destination.0 < f.locals@.len()
            && callee.0 < p.functions@.len() && forall|i: int|
            0 <= i < arguments@.len() ==> operand_fits(p, function, #[trigger] arguments@[i]),
        OperationKind::Builtin { receiver, arguments, .. } => operand_fits(p, function, receiver) && forall|i: int|
            0 <= i < arguments@.len() ==> operand_fits(p, function, #[trigger] arguments@[i]),
        OperationKind::BeginIteration { iterable } => operand_fits(p, function, iterable),
        OperationKind::EndIteration { iterable } => operand_fits(p, function, iterable),
        OperationKind::IterationValue { iterable, .. } => operand_fits(p, function, iterable),
        _ => true,
    }
}

proof fn lemma_each_field_fits(
    p: &Program,
    function: int,
    layout: Seq<StructField>,
    fields: Seq<(FieldId, Operand)>,
    from: int,
    index: int,
)
    requires
        0 <= from <= index < fields.len(),
        struct_fields_check(p, Some(FunctionId(function as usize)), &p.functions@[function], layout, fields, from) is Ok,
    ensures
        operand_fits(p, function, fields[index].1),
    decreases index - from,
{
    if from < index {
        lemma_each_field_fits(p, function, layout, fields, from + 1, index);
    }
}

proof fn lemma_each_element_fits(
    p: &Program,
    function: int,
    operands: Seq<Operand>,
    expected: Seq<TypeId>,
    from: int,
    index: int,
    description: Seq<char>,
)
    requires
        0 <= from <= index < operands.len(),
        operands.len() == expected.len(),
        operands_expected(
            p,
            Some(FunctionId(function as usize)),
            &p.functions@[function],
            operands,
            expected,
            from,
            description,
        ) is Ok,
    ensures
        operand_fits(p, function, operands[index]),
    decreases index - from,
{
    if from < index {
        lemma_each_element_fits(p, function, operands, expected, from + 1, index, description);
    }
}

proof fn lemma_each_argument_fits(
    p: &Program,
    function: int,
    callee: &Function,
    arguments: Seq<Operand>,
    from: int,
    index: int,
)
    requires
        0 <= from <= index < arguments.len(),
        arguments_check(p, Some(FunctionId(function as usize)), &p.functions@[function], callee, arguments, from) is Ok,
    ensures
        operand_fits(p, function, arguments[index]),
    decreases index - from,
{
    if from < index {
        lemma_each_argument_fits(p, function, callee, arguments, from + 1, index);
    }
}

#[verifier::spinoff_prover]
#[verifier::rlimit(40)]
proof fn lemma_operation_fits(p: &Program, function: int, block: int, index: int)
    requires
        valid(p),
        0 <= function < p.functions@.len(),
        0 <= block < p.functions@[function].blocks@.len(),
        0 <= index < p.functions@[function].blocks@[block].operations@.len(),
    ensures
        operation_fits(p, function, operation_at(&p.functions@[function], block, index)),
{
    let f = &p.functions@[function];
    lemma_valid_operation(p, function, block, index);
    match operation_at(f, block, index) {
        OperationKind::Aggregate { destination, aggregate } => {
            match aggregate {
                Aggregate::Struct { definition, fields } => {
                    let layout = definition_at(p, definition)->Ok_0.layout->Struct_0@;
                    assert forall|i: int| 0 <= i < fields@.len() implies operand_fits(
                        p,
                        function,
                        (#[trigger] fields@[i]).1,
                    ) by {
                        lemma_each_field_fits(p, function, layout, fields@, 0, i);
                    }
                },
                Aggregate::Tuple { definition, elements } => {
                    let layout = definition_at(p, definition)->Ok_0.layout->Tuple_0@;
                    assert forall|i: int| 0 <= i < elements@.len() implies operand_fits(
                        p,
                        function,
                        #[trigger] elements@[i],
                    ) by {
                        lemma_each_element_fits(p, function, elements@, layout, 0, i, "tuple field"@);
                    }
                },
                _ => {},
            }
        },
        OperationKind::Call { destination, function: callee, arguments } => {
            let called = &p.functions@[callee.0 as int];
            assert forall|i: int| 0 <= i < arguments@.len() implies operand_fits(
                p,
                function,
                #[trigger] arguments@[i],
            ) by {
                lemma_each_argument_fits(p, function, called, arguments@, 0, i);
            }
        },
        _ => {},
    }
}

/// The type of a well-formed operand is a type of the program.
proof fn lemma_operand_type(p: &Program, function: int, operand: Operand)
    requires
        valid(p),
        0 <= function < p.functions@.len(),
        operand_fits(p, function, operand),
    ensures
        operand_type(p, Some(FunctionId(function as usize)), &p.functions@[function], &operand)->Ok_0.0 < p.types@.len(),
        operand matches Operand::Copy(place) ==> place.local.0 < p.functions@[function].locals@.len(),
{
    let f = &p.functions@[function];
    match operand {
        Operand::Copy(place) => {
            lemma_valid_header(p, function);
            lemma_valid_local(p, f, place.local.0 as int);
            lemma_projected_type(
                p,
                function,
                f.locals@[place.local.0 as int].ty,
                place.projections@,
                place.projections@.len(),
            );
        },
        Operand::Constant(_) => {},
    }
}

proof fn lemma_projected_type(p: &Program, function: int, start: TypeId, projections: Seq<Projection>, count: nat)
    requires
        valid(p),
        0 <= function < p.functions@.len(),
        start.0 < p.types@.len(),
        count <= projections.len(),
        projected_type(
            p,
            Some(FunctionId(function as usize)),
            &p.functions@[function],
            start,
            projections,
            count,
        ) is Ok,
    ensures
        projected_type(
            p,
            Some(FunctionId(function as usize)),
            &p.functions@[function],
            start,
            projections,
            count,
        )->Ok_0.0 < p.types@.len(),
    decreases count,
{
    if count > 0 {
        lemma_projected_type(p, function, start, projections, (count - 1) as nat);
        let current = projected_type(
            p,
            Some(FunctionId(function as usize)),
            &p.functions@[function],
            start,
            projections,
            (count - 1) as nat,
        )->Ok_0;
        match projections[count - 1] {
            Projection::StructField { definition, field, .. } => {
                lemma_valid_definition(p, definition.0 as int);
                let fields = p.definitions@[definition.0 as int].layout->Struct_0@;
                lemma_valid_struct_field(p, definition, fields, 0, field.0 as int);
            },
            Projection::TupleField { definition, field } => {
                lemma_valid_definition(p, definition.0 as int);
                let fields = p.definitions@[definition.0 as int].layout->Tuple_0@;
                lemma_valid_tuple_field(p, fields, 0, field.0 as int);
            },
            _ => {
                lemma_valid_type(p, current.0 as int);
            },
        }
    }
}

/// Whether an operand reads a local that is set in a table.
fn reads_set(operand: &Operand, table: &Vec<bool>) -> (result: bool)
    requires
        operand matches Operand::Copy(place) ==> place.local.0 < table@.len(),
    ensures
        result == (operand matches Operand::Copy(place) && table@[place.local.0 as int]),
{
    match operand {
        Operand::Constant(_) => false,
        Operand::Copy(place) => table[place.local.0],
    }
}

/// The operation moves something that one of the set locals holds.
pub open spec fn moves_set(kind: OperationKind, table: Seq<bool>, to: LocalId) -> bool {
    exists|from: LocalId| #[trigger]
        transfers(kind, from, to) && from.0 < table.len() && table[from.0 as int]
}

/// Where an operation moves something that one of the set locals holds.
fn moved_to(p: &Program, function: usize, kind: &OperationKind, table: &Vec<bool>) -> (result: Option<LocalId>)
    requires
        valid(p),
        function < p.functions@.len(),
        operation_fits(p, function as int, *kind),
        table@.len() == p.functions@[function as int].locals@.len(),
    ensures
        result matches Some(to) ==> to.0 < table@.len() && moves_set(*kind, table@, to),
        forall|from: LocalId, to: LocalId| #[trigger]
            transfers(*kind, from, to) && from.0 < table@.len() && table@[from.0 as int] ==> result == Some(to),
        forall|from: LocalId, to: LocalId| #[trigger] transfers(*kind, from, to) ==> from.0 < table@.len() && to.0 < table@.len(),
{
    match kind {
        OperationKind::Copy { destination, operand } => {
            proof {
                lemma_operand_type(p, function as int, *operand);
            }
            if reads_set(operand, table) {
                let ghost from = operand->Copy_0.local;
                assert(table@[from.0 as int]);
                assert(transfers(*kind, from, *destination));
                Some(*destination)
            } else {
                None
            }
        },
        OperationKind::Assign { destination, value } => {
            proof {
                lemma_operand_type(p, function as int, *value);
            }
            if destination.projections.len() == 0 && reads_set(value, table) {
                let ghost from = value->Copy_0.local;
                assert(table@[from.0 as int]);
                assert(transfers(*kind, from, destination.local));
                Some(destination.local)
            } else {
                None
            }
        },
        OperationKind::Aggregate { destination, aggregate } => match aggregate {
            Aggregate::Tuple { elements, .. } => {
                let mut index: usize = 0;
                proof {
                    assert forall|i: int| 0 <= i < elements@.len() implies ((#[trigger] elements@[i]) matches Operand::Copy(place)
                        ==> place.local.0 < table@.len()) by {
                        lemma_operand_type(p, function as int, elements@[i]);
                    }
                }
                while index < elements.len()
                    invariant
                        index <= elements@.len(),
                        *kind matches OperationKind::Aggregate { destination: d, aggregate: Aggregate::Tuple { elements: e, .. } }
                            && e == elements && d == destination,
                        destination.0 < table@.len(),
                        forall|i: int|
                            0 <= i < elements@.len() ==> ((#[trigger] elements@[i]) matches Operand::Copy(place)
                                ==> place.local.0 < table@.len()),
                        forall|i: int|
                            0 <= i < index ==> ((#[trigger] elements@[i]) matches Operand::Copy(place)
                                ==> !table@[place.local.0 as int]),
                    decreases elements@.len() - index,
                {
                    if reads_set(&elements[index], table) {
                        let ghost from = elements@[index as int]->Copy_0.local;
                        assert(reads(elements@[index as int], from));
                        assert(transfers(*kind, from, *destination));
                        return Some(*destination);
                    }
                    index = index + 1;
                }
                None
            },
            _ => None,
        },
        OperationKind::UnionInject { destination, payload, .. } => {
            proof {
                lemma_operand_type(p, function as int, *payload);
            }
            if reads_set(payload, table) {
                let ghost from = payload->Copy_0.local;
                assert(table@[from.0 as int]);
                assert(transfers(*kind, from, *destination));
                Some(*destination)
            } else {
                None
            }
        },
        OperationKind::UnionPayload { destination, union, .. } => {
            proof {
                lemma_operand_type(p, function as int, *union);
            }
            if reads_set(union, table) {
                let ghost from = union->Copy_0.local;
                assert(table@[from.0 as int]);
                assert(transfers(*kind, from, *destination));
                Some(*destination)
            } else {
                None
            }
        },
        _ => None,
    }
}

/// Which local an operation gives a value of the origin outright.
fn introduced(
    p: &Program,
    function: usize,
    block: usize,
    index: usize,
    origin: Origin,
    carrying: &Vec<bool>,
) -> (result: Option<LocalId>)
    requires
        valid(p),
        function < p.functions@.len(),
        block < p.functions@[function as int].blocks@.len(),
        index < p.functions@[function as int].blocks@[block as int].operations@.len(),
        is_carrying_table(p, carrying@),
    ensures
        result matches Some(local) ==> local.0 < p.functions@[function as int].locals@.len(),
        forall|local: LocalId|
            introduces(p, function as int, block as int, index as int, local, origin) == (result == Some(local)),
{
    let f = &p.functions[function];
    proof {
        lemma_operation_fits(p, function as int, block as int, index as int);
    }
    match &f.blocks[block].operations[index].kind {
        OperationKind::Aggregate { destination, aggregate: Aggregate::Struct { .. } } => {
            let here = AllocationId { function: FunctionId(function), block: BlockId(block), operation: index };
            match origin {
                Origin::Allocation(id) => if id == here {
                    Some(*destination)
                } else {
                    None
                },
                _ => None,
            }
        },
        OperationKind::Call { destination, .. } => match origin {
            Origin::ExternalHeap => {
                let ty = f.locals[destination.0].ty;
                proof {
                    lemma_valid_header(p, function as int);
                    lemma_valid_local(p, f, destination.0 as int);
                    assert(TypeId(ty.0 as int as usize) == ty);
                    assert(carrying@[ty.0 as int] == carries(p, ty));
                }
                if carrying[ty.0] {
                    Some(*destination)
                } else {
                    None
                }
            },
            _ => None,
        },
        _ => None,
    }
}

/// Everything that one operation adds to the locals that hold the origin is there already.
spec fn settled(p: &Program, function: int, origin: Origin, table: Seq<bool>, block: int, index: int) -> bool {
    &&& forall|local: LocalId| #[trigger]
        introduces(p, function, block, index, local, origin) ==> table[local.0 as int]
    &&& forall|from: LocalId, to: LocalId| #[trigger]
        transfers(operation_at(&p.functions@[function], block, index), from, to) && table[from.0 as int]
            ==> table[to.0 as int]
}

proof fn lemma_holds_closed(p: &Program, function: int, origin: Origin, table: Seq<bool>, local: LocalId, steps: nat)
    requires
        valid(p),
        0 <= function < p.functions@.len(),
        table.len() == p.functions@[function].locals@.len(),
        forall|l: LocalId| #[trigger]
            is_parameter_origin(p, &p.functions@[function], l, origin) ==> table[l.0 as int],
        forall|block: int, index: int| #[trigger]
            live_operation(&p.functions@[function], block, index) ==> settled(
                p,
                function,
                origin,
                table,
                block,
                index,
            ),
        holds_within(p, function, local, origin, steps),
    ensures
        local.0 < table.len(),
        table[local.0 as int],
    decreases steps,
{
    let f = &p.functions@[function];
    if is_parameter_origin(p, f, local, origin) {
        lemma_valid_header(p, function);
        lemma_valid_parameter(p, f, origin->Parameter_0 as int);
    } else if exists|block: int, index: int| #[trigger]
        live_operation(f, block, index) && introduces(p, function, block, index, local, origin) {
        let (block, index) = choose|block: int, index: int| #[trigger]
            live_operation(f, block, index) && introduces(p, function, block, index, local, origin);
        lemma_operation_fits(p, function, block, index);
        assert(settled(p, function, origin, table, block, index));
    } else {
        let from = choose|from: LocalId|
            holds_within(p, function, from, origin, (steps - 1) as nat) && #[trigger] moves(f, from, local);
        lemma_holds_closed(p, function, origin, table, from, (steps - 1) as nat);
        let (block, index) = choose|block: int, index: int| #[trigger]
            live_operation(f, block, index) && transfers(operation_at(f, block, index), from, local);
        assert(settled(p, function, origin, table, block, index));
        lemma_operation_fits(p, function, block, index);
    }
}

proof fn lemma_holds_introduced(p: &Program, function: int, block: int, index: int, local: LocalId, origin: Origin)
    requires
        live_operation(&p.functions@[function], block, index),
        introduces(p, function, block, index, local, origin),
    ensures
        holds(p, function, local, origin),
{
    assert(holds_within(p, function, local, origin, 0));
}

proof fn lemma_holds_moved(
    p: &Program,
    function: int,
    block: int,
    index: int,
    from: LocalId,
    to: LocalId,
    origin: Origin,
)
    requires
        live_operation(&p.functions@[function], block, index),
        transfers(operation_at(&p.functions@[function], block, index), from, to),
        holds(p, function, from, origin),
    ensures
        holds(p, function, to, origin),
{
    let steps = choose|steps: nat| holds_within(p, function, from, origin, steps);
    assert(moves(&p.functions@[function], from, to));
    assert(holds_within(p, function, from, origin, ((steps + 1) - 1) as nat));
    assert(holds_within(p, function, to, origin, steps + 1));
}

/// The table says of each local whether it may hold a value of the origin.
pub open spec fn is_holder_table(p: &Program, function: int, origin: Origin, table: Seq<bool>) -> bool {
    &&& table.len() == p.functions@[function].locals@.len()
    &&& forall|l: int| 0 <= l < table.len() ==> #[trigger] table[l] == holds(p, function, LocalId(l as usize), origin)
}

/// One pass over a block for the locals that hold an origin.
fn spread_in_block(
    p: &Program,
    function: usize,
    block: usize,
    origin: Origin,
    carrying: &Vec<bool>,
    table: &mut Vec<bool>,
    changed: &mut bool,
)
    requires
        valid(p),
        function < p.functions@.len(),
        block < p.functions@[function as int].blocks@.len(),
        reachable(&p.functions@[function as int], block as int),
        is_carrying_table(p, carrying@),
        old(table)@.len() == p.functions@[function as int].locals@.len(),
        forall|l: int|
            0 <= l < old(table)@.len() && #[trigger] old(table)@[l] ==> holds(
                p,
                function as int,
                LocalId(l as usize),
                origin,
            ),
    ensures
        final(table)@.len() == old(table)@.len(),
        forall|l: int|
            0 <= l < final(table)@.len() && #[trigger] final(table)@[l] ==> holds(
                p,
                function as int,
                LocalId(l as usize),
                origin,
            ),
        forall|l: int| 0 <= l < old(table)@.len() && old(table)@[l] ==> #[trigger] final(table)@[l],
        *old(changed) ==> *final(changed),
        !*final(changed) ==> final(table)@ == old(table)@,
        room(final(table)@) <= room(old(table)@),
        *final(changed) && !*old(changed) ==> room(final(table)@) < room(old(table)@),
        !*final(changed) ==> forall|index: int| #[trigger]
            live_operation(&p.functions@[function as int], block as int, index) ==> settled(
                p,
                function as int,
                origin,
                final(table)@,
                block as int,
                index,
            ),
{
    let f = &p.functions[function];
    let mut index: usize = 0;
    while index < f.blocks[block].operations.len()
        invariant
            valid(p),
            function < p.functions@.len(),
            f == &p.functions@[function as int],
            block < f.blocks@.len(),
            reachable(f, block as int),
            is_carrying_table(p, carrying@),
            index <= f.blocks@[block as int].operations@.len(),
            table@.len() == old(table)@.len() == f.locals@.len(),
            forall|l: int|
                0 <= l < table@.len() && #[trigger] table@[l] ==> holds(p, function as int, LocalId(l as usize), origin),
            forall|l: int| 0 <= l < old(table)@.len() && old(table)@[l] ==> #[trigger] table@[l],
            *old(changed) ==> *changed,
            !*changed ==> table@ == old(table)@,
            room(table@) <= room(old(table)@),
            *changed && !*old(changed) ==> room(table@) < room(old(table)@),
            !*changed ==> forall|i: int|
                0 <= i < index ==> #[trigger] settled(p, function as int, origin, table@, block as int, i),
        decreases f.blocks@[block as int].operations@.len() - index,
    {
        proof {
            lemma_operation_fits(p, function as int, block as int, index as int);
        }
        assert(live_operation(f, block as int, index as int));
        let new = introduced(p, function, block, index, origin, carrying);
        if let Some(local) = new {
            proof {
                assert(introduces(p, function as int, block as int, index as int, local, origin));
                lemma_holds_introduced(p, function as int, block as int, index as int, local, origin);
                assert(LocalId(local.0 as int as usize) == local);
            }
            mark(table, local.0, changed);
        }
        let ghost middle = table@;
        let moved = moved_to(p, function, &f.blocks[block].operations[index].kind, table);
        if let Some(local) = moved {
            proof {
                let kind = operation_at(f, block as int, index as int);
                let from = choose|from: LocalId| #[trigger]
                    transfers(kind, from, local) && from.0 < table@.len() && table@[from.0 as int];
                assert(LocalId(from.0 as int as usize) == from);
                assert(holds(p, function as int, from, origin));
                lemma_holds_moved(p, function as int, block as int, index as int, from, local, origin);
                assert(LocalId(local.0 as int as usize) == local);
            }
            mark(table, local.0, changed);
        }
        assert(!*changed ==> settled(p, function as int, origin, table@, block as int, index as int));
        index = index + 1;
    }
}

/// Which locals may hold a value of the origin.
fn holders(p: &Program, function: usize, reach: &Vec<bool>, carrying: &Vec<bool>, origin: Origin) -> (result: Vec<bool>)
    requires
        valid(p),
        function < p.functions@.len(),
        is_reach_table(&p.functions@[function as int], reach@),
        is_carrying_table(p, carrying@),
    ensures
        is_holder_table(p, function as int, origin, result@),
{
    let f = &p.functions[function];
    proof {
        lemma_valid_header(p, function as int);
    }
    let mut table = cleared(f.locals.len());
    if let Origin::Parameter(position) = origin {
        if position < f.parameters.len() {
            let local = f.parameters[position];
            proof {
                lemma_valid_parameter(p, f, position as int);
                lemma_valid_local(p, f, local.0 as int);
            }
            let ty = f.locals[local.0].ty;
            assert(TypeId(ty.0 as int as usize) == ty);
            assert(carrying@[ty.0 as int] == carries(p, ty));
            if carrying[ty.0] {
                proof {
                    assert(is_parameter_origin(p, f, local, origin));
                    assert(holds_within(p, function as int, local, origin, 0));
                    assert(LocalId(local.0 as int as usize) == local);
                }
                table.set(local.0, true);
            }
        }
    }
    loop
        invariant
            valid(p),
            function < p.functions@.len(),
            f == &p.functions@[function as int],
            is_reach_table(f, reach@),
            is_carrying_table(p, carrying@),
            table@.len() == f.locals@.len(),
            forall|l: LocalId| #[trigger]
                is_parameter_origin(p, f, l, origin) ==> l.0 < table@.len() && table@[l.0 as int],
            forall|l: int|
                0 <= l < table@.len() && #[trigger] table@[l] ==> holds(p, function as int, LocalId(l as usize), origin),
        ensures
            is_holder_table(p, function as int, origin, table@),
        decreases room(table@),
    {
        let ghost before = table@;
        let mut changed = false;
        let mut block: usize = 0;
        while block < f.blocks.len()
            invariant
                valid(p),
                function < p.functions@.len(),
                f == &p.functions@[function as int],
                is_reach_table(f, reach@),
                is_carrying_table(p, carrying@),
                block <= f.blocks@.len(),
                table@.len() == f.locals@.len(),
                forall|l: int|
                    0 <= l < table@.len() && #[trigger] table@[l] ==> holds(
                        p,
                        function as int,
                        LocalId(l as usize),
                        origin,
                    ),
                table@.len() == before.len(),
                forall|l: int| 0 <= l < before.len() && before[l] ==> #[trigger] table@[l],
                !changed ==> table@ == before,
                room(table@) <= room(before),
                changed ==> room(table@) < room(before),
                forall|l: LocalId| #[trigger]
                    is_parameter_origin(p, f, l, origin) ==> l.0 < before.len() && before[l.0 as int],
                !changed ==> forall|b: int, i: int| #[trigger]
                    live_operation(f, b, i) && b < block ==> settled(p, function as int, origin, table@, b, i),
            decreases f.blocks@.len() - block,
        {
            if reach[block] {
                spread_in_block(p, function, block, origin, carrying, &mut table, &mut changed);
            }
            block = block + 1;
        }
        if !changed {
            proof {
                assert(table@.len() == f.locals.len());
                assert forall|l: int| 0 <= l < table@.len() implies #[trigger] table@[l] == holds(
                    p,
                    function as int,
                    LocalId(l as usize),
                    origin,
                ) by {
                    let local = LocalId(l as usize);
                    if holds(p, function as int, local, origin) {
                        let steps = choose|steps: nat| holds_within(p, function as int, local, origin, steps);
                        lemma_holds_closed(p, function as int, origin, table@, local, steps);
                    }
                }
            }
            break;
        }
        assert(forall|l: LocalId| #[trigger] is_parameter_origin(p, f, l, origin) ==> table@[l.0 as int]);
    }
    table
}

/// The allocations among the first `count` operations of a block.
pub open spec fn block_allocations(p: &Program, function: int, block: int, count: nat) -> Seq<AllocationId>
    decreases count,
{
    if count == 0 {
        seq![]
    } else {
        let before = block_allocations(p, function, block, (count - 1) as nat);
        if is_allocation(operation_at(&p.functions@[function], block, count - 1)) {
            before.push(allocation_at(function, block, count - 1))
        } else {
            before
        }
    }
}

/// The allocations in the first `count` blocks of a function, in the order of the source.
pub open spec fn function_allocations(p: &Program, function: int, count: nat) -> Seq<AllocationId>
    decreases count,
{
    if count == 0 {
        seq![]
    } else {
        function_allocations(p, function, (count - 1) as nat) + block_allocations(
            p,
            function,
            count - 1,
            p.functions@[function].blocks@[count - 1].operations@.len(),
        )
    }
}

/// The place is that of an allocation.
pub open spec fn is_site(p: &Program, id: AllocationId) -> bool {
    &&& id.function.0 < p.functions@.len()
    &&& id.block.0 < p.functions@[id.function.0 as int].blocks@.len()
    &&& id.operation < p.functions@[id.function.0 as int].blocks@[id.block.0 as int].operations@.len()
    &&& is_allocation(operation_at(&p.functions@[id.function.0 as int], id.block.0 as int, id.operation as int))
}

proof fn lemma_block_allocations(p: &Program, function: int, block: int, count: nat)
    requires
        0 <= function < p.functions.len(),
        0 <= block < p.functions@[function].blocks.len(),
        count <= p.functions@[function].blocks@[block].operations.len(),
    ensures
        forall|i: int|
            0 <= i < block_allocations(p, function, block, count).len() ==> {
                let id = #[trigger] block_allocations(p, function, block, count)[i];
                is_site(p, id) && id.function.0 == function && id.block.0 == block && id.operation < count
            },
        forall|index: int|
            0 <= index < count && is_allocation(#[trigger] operation_at(&p.functions@[function], block, index))
                ==> block_allocations(p, function, block, count).contains(allocation_at(function, block, index)),
        forall|i: int, j: int|
            0 <= i < j < block_allocations(p, function, block, count).len() ==> (#[trigger] block_allocations(
                p,
                function,
                block,
                count,
            )[i]).operation < (#[trigger] block_allocations(p, function, block, count)[j]).operation,
    decreases count,
{
    if count > 0 {
        lemma_block_allocations(p, function, block, (count - 1) as nat);
        let before = block_allocations(p, function, block, (count - 1) as nat);
        let now = block_allocations(p, function, block, count);
        assert forall|index: int|
            0 <= index < count && is_allocation(#[trigger] operation_at(&p.functions@[function], block, index)) implies now.contains(
        allocation_at(function, block, index)) by {
            if index < count - 1 {
                let i = choose|i: int| 0 <= i < before.len() && before[i] == allocation_at(function, block, index);
                assert(now[i] == before[i]);
            } else {
                assert(now[before.len() as int] == allocation_at(function, block, index));
            }
        }
    }
}

/// One allocation stands before another.
pub open spec fn precedes(left: AllocationId, right: AllocationId) -> bool {
    ||| left.function.0 < right.function.0
    ||| left.function == right.function && left.block.0 < right.block.0
    ||| left.function == right.function && left.block == right.block && left.operation < right.operation
}

/// The allocations stand in the order of the source, each once.
pub open spec fn ascending(ids: Seq<AllocationId>) -> bool {
    forall|i: int, j: int| 0 <= i < j < ids.len() ==> precedes(#[trigger] ids[i], #[trigger] ids[j])
}

pub(crate) proof fn lemma_function_allocations(p: &Program, function: int, count: nat)
    requires
        0 <= function < p.functions.len(),
        count <= p.functions@[function].blocks.len(),
    ensures
        forall|i: int|
            0 <= i < function_allocations(p, function, count).len() ==> {
                let id = #[trigger] function_allocations(p, function, count)[i];
                is_site(p, id) && id.function.0 == function && id.block.0 < count
            },
        forall|id: AllocationId|
            is_site(p, id) && id.function.0 == function && id.block.0 < count ==> #[trigger] function_allocations(
                p,
                function,
                count,
            ).contains(id),
        ascending(function_allocations(p, function, count)),
    decreases count,
{
    if count > 0 {
        lemma_function_allocations(p, function, (count - 1) as nat);
        let block = count - 1;
        let operations = p.functions@[function].blocks@[block].operations;
        lemma_block_allocations(p, function, block, operations.len() as nat);
        let before = function_allocations(p, function, (count - 1) as nat);
        let here = block_allocations(p, function, block, operations.len() as nat);
        let now = function_allocations(p, function, count);
        assert(now == before + here);
        assert forall|id: AllocationId|
            is_site(p, id) && id.function.0 == function && id.block.0 < count implies #[trigger] now.contains(id) by {
            if id.block.0 < count - 1 {
                assert(before.contains(id));
                let i = choose|i: int| 0 <= i < before.len() && before[i] == id;
                assert(now[i] == id);
            } else {
                assert(id == allocation_at(function, block, id.operation as int));
                let i = choose|i: int| 0 <= i < here.len() && here[i] == id;
                assert(now[before.len() + i] == id);
            }
        }
        assert forall|i: int| 0 <= i < now.len() implies {
            let id = #[trigger] now[i];
            is_site(p, id) && id.function.0 == function && id.block.0 < count
        } by {
            if i < before.len() {
                assert(now[i] == before[i]);
            } else {
                assert(now[i] == here[i - before.len()]);
            }
        }
        assert forall|i: int, j: int| 0 <= i < j < now.len() implies precedes(#[trigger] now[i], #[trigger] now[j]) by {
            if j < before.len() {
                assert(now[i] == before[i] && now[j] == before[j]);
            } else if i < before.len() {
                assert(now[i] == before[i] && now[j] == here[j - before.len()]);
            } else {
                assert(now[i] == here[i - before.len()] && now[j] == here[j - before.len()]);
            }
        }
    }
}

fn builds_struct(kind: &OperationKind) -> (result: bool)
    ensures
        result == is_allocation(*kind),
{
    match kind {
        OperationKind::Aggregate { aggregate: Aggregate::Struct { .. }, .. } => true,
        _ => false,
    }
}

/// The allocations of a function.
fn allocations_in(p: &Program, function: usize) -> (result: Vec<AllocationId>)
    requires
        function < p.functions@.len(),
    ensures
        result@ == function_allocations(
            p,
            function as int,
            p.functions@[function as int].blocks@.len(),
        ),
{
    let f = &p.functions[function];
    let mut ids: Vec<AllocationId> = Vec::new();
    let mut block: usize = 0;
    while block < f.blocks.len()
        invariant
            f == &p.functions@[function as int],
            block <= f.blocks@.len(),
            ids@ == function_allocations(p, function as int, block as nat),
        decreases f.blocks@.len() - block,
    {
        let ghost before = ids@;
        let mut index: usize = 0;
        while index < f.blocks[block].operations.len()
            invariant
                f == &p.functions@[function as int],
                block < f.blocks@.len(),
                index <= f.blocks@[block as int].operations@.len(),
                ids@ == before + block_allocations(p, function as int, block as int, index as nat),
            decreases f.blocks@[block as int].operations@.len() - index,
        {
            if builds_struct(&f.blocks[block].operations[index].kind) {
                ids.push(
                    AllocationId { function: FunctionId(function), block: BlockId(block), operation: index },
                );
            }
            index = index + 1;
            assert(ids@ =~= before + block_allocations(p, function as int, block as int, index as nat));
        }
        block = block + 1;
    }
    ids
}

/// The origin can occur in the function.
pub open spec fn possible(p: &Program, function: int, origin: Origin) -> bool {
    match origin {
        Origin::Parameter(position) => position < p.functions@[function].parameters@.len(),
        Origin::Allocation(id) => is_site(p, id) && id.function.0 == function,
        Origin::ExternalHeap => true,
    }
}

/// All origins that can occur in a function: the parameters, the allocations, and the heap.
pub open spec fn origins_of(p: &Program, function: int) -> Seq<Origin> {
    let f = &p.functions@[function];
    let sites = function_allocations(p, function, f.blocks@.len());
    Seq::new(f.parameters@.len(), |i: int| Origin::Parameter(i as usize)) + Seq::new(
        sites.len(),
        |i: int| Origin::Allocation(sites[i]),
    ).push(Origin::ExternalHeap)
}

proof fn lemma_origins(p: &Program, function: int, origin: Origin)
    requires
        0 <= function < p.functions.len(),
        possible(p, function, origin),
    ensures
        origins_of(p, function).contains(origin),
{
    let f = &p.functions@[function];
    let sites = function_allocations(p, function, f.blocks@.len());
    let all = origins_of(p, function);
    match origin {
        Origin::Parameter(position) => {
            assert(all[position as int] == origin);
        },
        Origin::Allocation(id) => {
            assert(f.blocks@.len() == f.blocks.len());
            lemma_function_allocations(p, function, f.blocks@.len());
            assert(sites.contains(id));
            let i = choose|i: int| 0 <= i < sites.len() && sites[i] == id;
            assert(all[f.parameters@.len() + i] == origin);
        },
        Origin::ExternalHeap => {
            assert(all[all.len() - 1] == origin);
        },
    }
}

fn origins(p: &Program, function: usize, sites: &Vec<AllocationId>) -> (result: Vec<Origin>)
    requires
        function < p.functions@.len(),
        sites@ == function_allocations(p, function as int, p.functions@[function as int].blocks@.len()),
    ensures
        result@ == origins_of(p, function as int),
{
    let count = p.functions[function].parameters.len();
    let mut all: Vec<Origin> = Vec::new();
    let mut position: usize = 0;
    while position < count
        invariant
            position <= count,
            all@ == Seq::new(position as nat, |i: int| Origin::Parameter(i as usize)),
        decreases count - position,
    {
        all.push(Origin::Parameter(position));
        position = position + 1;
        assert(all@ =~= Seq::new(position as nat, |i: int| Origin::Parameter(i as usize)));
    }
    let ghost parameters = all@;
    let mut index: usize = 0;
    while index < sites.len()
        invariant
            index <= sites@.len(),
            all@ == parameters + Seq::new(index as nat, |i: int| Origin::Allocation(sites@[i])),
        decreases sites@.len() - index,
    {
        all.push(Origin::Allocation(sites[index]));
        index = index + 1;
        assert(all@ =~= parameters + Seq::new(index as nat, |i: int| Origin::Allocation(sites@[i])));
    }
    all.push(Origin::ExternalHeap);
    assert(all@ =~= origins_of(p, function as int));
    all
}

proof fn lemma_holds_possible(p: &Program, function: int, local: LocalId, origin: Origin, steps: nat)
    requires
        valid(p),
        0 <= function < p.functions.len(),
        holds_within(p, function, local, origin, steps),
    ensures
        possible(p, function, origin),
    decreases steps,
{
    let f = &p.functions@[function];
    if is_parameter_origin(p, f, local, origin) {
    } else if exists|block: int, index: int| #[trigger]
        live_operation(f, block, index) && introduces(p, function, block, index, local, origin) {
        let (block, index) = choose|block: int, index: int| #[trigger]
            live_operation(f, block, index) && introduces(p, function, block, index, local, origin);
        assert(f.blocks.len() == f.blocks@.len());
        assert(f.blocks@[block].operations.len() == f.blocks@[block].operations@.len());
    } else {
        let from = choose|from: LocalId|
            holds_within(p, function, from, origin, (steps - 1) as nat) && #[trigger] moves(f, from, local);
        lemma_holds_possible(p, function, from, origin, (steps - 1) as nat);
    }
}

/// Which locals may hold which origin.
spec fn is_fact_table(p: &Program, function: int, facts: Seq<Vec<bool>>) -> bool {
    &&& facts.len() == origins_of(p, function).len()
    &&& forall|k: int|
        0 <= k < facts.len() ==> is_holder_table(p, function, origins_of(p, function)[k], (#[trigger] facts[k])@)
}

fn collect_facts(
    p: &Program,
    function: usize,
    all: &Vec<Origin>,
    reach: &Vec<bool>,
    carrying: &Vec<bool>,
) -> (result: Vec<
    Vec<bool>,
>)
    requires
        valid(p),
        function < p.functions@.len(),
        all@ == origins_of(p, function as int),
        is_reach_table(&p.functions@[function as int], reach@),
        is_carrying_table(p, carrying@),
    ensures
        is_fact_table(p, function as int, result@),
{
    let mut facts: Vec<Vec<bool>> = Vec::new();
    let mut index: usize = 0;
    while index < all.len()
        invariant
            valid(p),
            function < p.functions@.len(),
            all@ == origins_of(p, function as int),
            is_reach_table(&p.functions@[function as int], reach@),
            is_carrying_table(p, carrying@),
            index <= all@.len(),
            facts@.len() == index,
            forall|k: int|
                0 <= k < facts@.len() ==> is_holder_table(
                    p,
                    function as int,
                    origins_of(p, function as int)[k],
                    (#[trigger] facts@[k])@,
                ),
        decreases all@.len() - index,
    {
        facts.push(holders(p, function, reach, carrying, all[index]));
        index = index + 1;
    }
    facts
}

/// Whether an operand may be a value of the origin at an index.
fn operand_yields(
    p: &Program,
    function: usize,
    facts: &Vec<Vec<bool>>,
    operand: &Operand,
    which: usize,
) -> (result: bool)
    requires
        valid(p),
        function < p.functions@.len(),
        is_fact_table(p, function as int, facts@),
        operand_fits(p, function as int, *operand),
        which < facts@.len(),
    ensures
        result == yields(p, function as int, *operand, origins_of(p, function as int)[which as int]),
{
    proof {
        lemma_operand_type(p, function as int, *operand);
    }
    match operand {
        Operand::Constant(_) => false,
        Operand::Copy(place) => {
            assert(LocalId(place.local.0 as int as usize) == place.local);
            assert(is_holder_table(p, function as int, origins_of(p, function as int)[which as int], facts@[which as int]@));
            facts[which][place.local.0]
        },
    }
}

/// What is known of the functions of a program.
pub open spec fn known_views(known: Seq<FunctionSummary>) -> Seq<SummaryView> {
    Seq::new(known.len(), |i: int| known[i]@)
}

fn has_field_projection(place: &Place) -> (result: bool)
    ensures
        result == is_field_place(place@),
{
    let mut index: usize = 0;
    while index < place.projections.len()
        invariant
            index <= place.projections@.len(),
            forall|i: int| 0 <= i < index ==> !(#[trigger] place.projections@[i] is StructField),
        decreases place.projections@.len() - index,
    {
        if let Projection::StructField { .. } = place.projections[index] {
            assert(place@.projections[index as int] is StructField);
            return true;
        }
        index = index + 1;
    }
    false
}

/// Whether an origin is set in a table.
fn origin_set(all: &Vec<Origin>, table: &Vec<bool>, origin: Origin) -> (result: bool)
    requires
        all@.len() == table@.len(),
    ensures
        result == exists|j: int| 0 <= j < table@.len() && table@[j] && #[trigger] all@[j] == origin,
{
    let mut index: usize = 0;
    while index < all.len()
        invariant
            index <= all@.len() == table@.len(),
            forall|j: int| 0 <= j < index && table@[j] ==> #[trigger] all@[j] != origin,
        decreases all@.len() - index,
    {
        if table[index] && all[index] == origin {
            return true;
        }
        index = index + 1;
    }
    false
}

/// Whether a local may hold something that escapes or lives outside the function.
fn owner_escapes(
    p: &Program,
    function: usize,
    all: &Vec<Origin>,
    facts: &Vec<Vec<bool>>,
    escaped: &Vec<bool>,
    local: LocalId,
) -> (result: bool)
    requires
        valid(p),
        function < p.functions@.len(),
        all@ == origins_of(p, function as int),
        is_fact_table(p, function as int, facts@),
        escaped@.len() == all@.len(),
        local.0 < p.functions@[function as int].locals@.len(),
    ensures
        result == (holds_outside(p, function as int, local) || exists|j: int|
            0 <= j < escaped@.len() && escaped@[j] && holds(p, function as int, local, #[trigger] all@[j])),
{
    assert(LocalId(local.0 as int as usize) == local);
    let mut index: usize = 0;
    while index < all.len()
        invariant
            function < p.functions@.len(),
            all@ == origins_of(p, function as int),
            is_fact_table(p, function as int, facts@),
            escaped@.len() == all@.len(),
            local.0 < p.functions@[function as int].locals@.len(),
            LocalId(local.0 as int as usize) == local,
            index <= all@.len(),
            forall|j: int|
                0 <= j < index && (escaped@[j] || !(all@[j] is Allocation)) ==> !holds(
                    p,
                    function as int,
                    local,
                    #[trigger] all@[j],
                ),
        decreases all@.len() - index,
    {
        let outside = match all[index] {
            Origin::Allocation(_) => false,
            _ => true,
        };
        assert(is_holder_table(p, function as int, all@[index as int], facts@[index as int]@));
        if (escaped[index] || outside) && facts[index][local.0] {
            assert(holds(p, function as int, local, all@[index as int]));
            return true;
        }
        index = index + 1;
    }
    proof {
        if holds_outside(p, function as int, local) {
            let origin = if holds(p, function as int, local, Origin::ExternalHeap) {
                Origin::ExternalHeap
            } else {
                let position = choose|position: usize| #[trigger]
                    holds(p, function as int, local, Origin::Parameter(position));
                Origin::Parameter(position)
            };
            let steps = choose|steps: nat| holds_within(p, function as int, local, origin, steps);
            lemma_holds_possible(p, function as int, local, origin, steps);
            lemma_origins(p, function as int, origin);
            let j = choose|j: int| 0 <= j < all@.len() && all@[j] == origin;
            assert(!holds(p, function as int, local, all@[j]));
        }
    }
    false
}

/// Some origin that already escapes may own a value of the given origin by the operation.
spec fn owned_by_escaped(
    p: &Program,
    function: int,
    block: int,
    index: int,
    escaped: Seq<bool>,
    origin: Origin,
) -> bool {
    exists|j: int|
        0 <= j < escaped.len() && escaped[j] && stores(
            p,
            function,
            block,
            index,
            #[trigger] origins_of(p, function)[j],
            origin,
        )
}

/// Whether an operation lets the origin at an index escape.
fn lets_out(
    p: &Program,
    function: usize,
    known: &Vec<FunctionSummary>,
    block: usize,
    index: usize,
    all: &Vec<Origin>,
    facts: &Vec<Vec<bool>>,
    escaped: &Vec<bool>,
    which: usize,
) -> (result: bool)
    requires
        valid(p),
        function < p.functions@.len(),
        live_operation(&p.functions@[function as int], block as int, index as int),
        known@.len() == p.functions@.len(),
        all@ == origins_of(p, function as int),
        is_fact_table(p, function as int, facts@),
        escaped@.len() == all@.len(),
        which < all@.len(),
    ensures
        result == (releases(
            p,
            function as int,
            known_views(known@),
            block as int,
            index as int,
            all@[which as int],
        ) || owned_by_escaped(p, function as int, block as int, index as int, escaped@, all@[which as int])),
{
    let f = &p.functions[function];
    proof {
        lemma_operation_fits(p, function as int, block as int, index as int);
    }
    let ghost origin = all@[which as int];
    match &f.blocks[block].operations[index].kind {
        OperationKind::Aggregate { aggregate, .. } => match aggregate {
            Aggregate::Struct { fields, .. } => {
                let here = Origin::Allocation(
                    AllocationId { function: FunctionId(function), block: BlockId(block), operation: index },
                );
                if !origin_set(all, escaped, here) {
                    return false;
                }
                let ghost j = choose|j: int| 0 <= j < escaped@.len() && escaped@[j] && #[trigger] all@[j] == here;
                let mut position: usize = 0;
                while position < fields.len()
                    invariant
                        valid(p),
                        function < p.functions@.len(),
                        f == &p.functions@[function as int],
                        block < f.blocks@.len(),
                        index < f.blocks@[block as int].operations@.len(),
                        operation_at(f, block as int, index as int) matches OperationKind::Aggregate {
                            aggregate: Aggregate::Struct { fields: found, .. },
                            ..
                        } && found == fields,
                        here == Origin::Allocation(allocation_at(function as int, block as int, index as int)),
                        all@ == origins_of(p, function as int),
                        is_fact_table(p, function as int, facts@),
                        escaped@.len() == all@.len(),
                        which < all@.len(),
                        origin == all@[which as int],
                        position <= fields@.len(),
                        0 <= j < escaped@.len() && escaped@[j] && all@[j] == here,
                        forall|i: int|
                            0 <= i < fields@.len() ==> operand_fits(p, function as int, (#[trigger] fields@[i]).1),
                        forall|i: int|
                            0 <= i < position ==> !yields(p, function as int, (#[trigger] fields@[i]).1, origin),
                    decreases fields@.len() - position,
                {
                    if operand_yields(p, function, facts, &fields[position].1, which) {
                        assert(stores(
                            p,
                            function as int,
                            block as int,
                            index as int,
                            origins_of(p, function as int)[j],
                            origin,
                        ));
                        return true;
                    }
                    position = position + 1;
                }
                false
            },
            _ => false,
        },
        OperationKind::Assign { destination, value } => {
            if !has_field_projection(destination) || !operand_yields(p, function, facts, value, which) {
                return false;
            }
            let result = owner_escapes(p, function, all, facts, escaped, destination.local);
            proof {
                if result && !holds_outside(p, function as int, destination.local) {
                    let j = choose|j: int|
                        0 <= j < escaped@.len() && escaped@[j] && holds(
                            p,
                            function as int,
                            destination.local,
                            #[trigger] all@[j],
                        );
                    assert(stores(
                        p,
                        function as int,
                        block as int,
                        index as int,
                        origins_of(p, function as int)[j],
                        origin,
                    ));
                }
            }
            result
        },
        OperationKind::Call { function: callee, arguments, .. } => {
            let summary = &known[callee.0];
            let mut position: usize = 0;
            while position < arguments.len()
                invariant
                    valid(p),
                    function < p.functions@.len(),
                    f == &p.functions@[function as int],
                    block < f.blocks@.len(),
                    index < f.blocks@[block as int].operations@.len(),
                    operation_at(f, block as int, index as int) matches OperationKind::Call {
                        function: called,
                        arguments: found,
                        ..
                    } && found == arguments && called == *callee,
                    callee.0 < known@.len(),
                    known_views(known@)[callee.0 as int] == summary@,
                    all@ == origins_of(p, function as int),
                    is_fact_table(p, function as int, facts@),
                    which < all@.len(),
                    origin == all@[which as int],
                    position <= arguments@.len(),
                    forall|i: int|
                        0 <= i < arguments@.len() ==> operand_fits(
                            p,
                            function as int,
                            #[trigger] arguments@[i],
                        ),
                    forall|i: int|
                        0 <= i < position ==> !(lets_escape(summary@, i) && yields(
                            p,
                            function as int,
                            #[trigger] arguments@[i],
                            origin,
                        )),
                decreases arguments@.len() - position,
            {
                let lets = position >= summary.parameter_escapes.len()
                    || summary.parameter_escapes[position];
                if lets && operand_yields(p, function, facts, &arguments[position], which) {
                    assert(releases(
                        p,
                        function as int,
                        known_views(known@),
                        block as int,
                        index as int,
                        origin,
                    ));
                    return true;
                }
                position = position + 1;
            }
            false
        },
        _ => false,
    }
}

/// Whether an origin that escapes can occur in the function.
proof fn lemma_escapes_possible(p: &Program, function: int, summaries: Seq<SummaryView>, origin: Origin, steps: nat)
    requires
        valid(p),
        0 <= function < p.functions.len(),
        escapes_within(p, function, summaries, origin, steps),
    ensures
        possible(p, function, origin),
{
    let f = &p.functions@[function];
    if escapes_directly(p, function, summaries, origin) {
        if exists|block: int, index: int| #[trigger]
            live_operation(f, block, index) && releases(p, function, summaries, block, index, origin) {
            let (block, index) = choose|block: int, index: int| #[trigger]
                live_operation(f, block, index) && releases(p, function, summaries, block, index, origin);
            match operation_at(f, block, index) {
                OperationKind::Assign { destination, value } => {
                    lemma_yields_possible(p, function, value, origin);
                },
                OperationKind::Call { function: callee, arguments, .. } => {
                    let i = choose|i: int|
                        0 <= i < arguments@.len() && lets_escape(summaries[callee.0 as int], i) && yields(
                            p,
                            function,
                            #[trigger] arguments@[i],
                            origin,
                        );
                    lemma_yields_possible(p, function, arguments@[i], origin);
                },
                _ => {},
            }
        } else if exists|block: int| #[trigger] returns_origin(p, function, block, origin) {
            let block = choose|block: int| #[trigger] returns_origin(p, function, block, origin);
            let value = f.blocks@[block].terminator->Some_0.kind->Return_0;
            lemma_yields_possible(p, function, value, origin);
        }
    } else {
        let owner = choose|owner: Origin|
            escapes_within(p, function, summaries, owner, (steps - 1) as nat) && #[trigger] owns(
                p,
                function,
                owner,
                origin,
            );
        lemma_owned_possible(p, function, owner, origin);
    }
}

proof fn lemma_yields_possible(p: &Program, function: int, operand: Operand, origin: Origin)
    requires
        valid(p),
        0 <= function < p.functions.len(),
        yields(p, function, operand, origin),
    ensures
        possible(p, function, origin),
{
    let local = operand->Copy_0.local;
    let steps = choose|steps: nat| holds_within(p, function, local, origin, steps);
    lemma_holds_possible(p, function, local, origin, steps);
}

proof fn lemma_owned_possible(p: &Program, function: int, owner: Origin, origin: Origin)
    requires
        valid(p),
        0 <= function < p.functions.len(),
        owns(p, function, owner, origin),
    ensures
        possible(p, function, origin),
{
    let f = &p.functions@[function];
    let (block, index) = choose|block: int, index: int| #[trigger]
        live_operation(f, block, index) && stores(p, function, block, index, owner, origin);
    match operation_at(f, block, index) {
        OperationKind::Aggregate { aggregate: Aggregate::Struct { fields, .. }, .. } => {
            let i = choose|i: int| 0 <= i < fields@.len() && yields(p, function, (#[trigger] fields@[i]).1, origin);
            lemma_yields_possible(p, function, fields@[i].1, origin);
        },
        OperationKind::Assign { destination, value } => {
            lemma_yields_possible(p, function, value, origin);
        },
        _ => {},
    }
}

/// Everything that one operation lets escape is set already.
spec fn released(
    p: &Program,
    function: int,
    summaries: Seq<SummaryView>,
    escaped: Seq<bool>,
    block: int,
    index: int,
) -> bool {
    forall|k: int|
        0 <= k < escaped.len() && (releases(
            p,
            function,
            summaries,
            block,
            index,
            #[trigger] origins_of(p, function)[k],
        ) || owned_by_escaped(p, function, block, index, escaped, origins_of(p, function)[k])) ==> escaped[k]
}

/// The table says of each origin whether it escapes.
spec fn is_escape_table(p: &Program, function: int, summaries: Seq<SummaryView>, table: Seq<bool>) -> bool {
    &&& table.len() == origins_of(p, function).len()
    &&& forall|k: int|
        0 <= k < table.len() ==> table[k] == escapes(p, function, summaries, #[trigger] origins_of(p, function)[k])
}

proof fn lemma_escape_closed(
    p: &Program,
    function: int,
    summaries: Seq<SummaryView>,
    escaped: Seq<bool>,
    which: int,
    steps: nat,
)
    requires
        valid(p),
        0 <= function < p.functions.len(),
        escaped.len() == origins_of(p, function).len(),
        0 <= which < escaped.len(),
        forall|block: int, index: int| #[trigger]
            live_operation(&p.functions@[function], block, index) ==> released(
                p,
                function,
                summaries,
                escaped,
                block,
                index,
            ),
        forall|k: int, block: int|
            0 <= k < escaped.len() && #[trigger] returns_origin(p, function, block, origins_of(p, function)[k])
                ==> escaped[k],
        forall|k: int, local: LocalId|
            0 <= k < escaped.len() && conservative(p, function) && #[trigger] is_parameter_origin(
                p,
                &p.functions@[function],
                local,
                origins_of(p, function)[k],
            ) ==> escaped[k],
        escapes_within(p, function, summaries, origins_of(p, function)[which], steps),
    ensures
        escaped[which],
    decreases steps,
{
    let f = &p.functions@[function];
    let origin = origins_of(p, function)[which];
    if escapes_directly(p, function, summaries, origin) {
        if exists|block: int, index: int| #[trigger]
            live_operation(f, block, index) && releases(p, function, summaries, block, index, origin) {
            let (block, index) = choose|block: int, index: int| #[trigger]
                live_operation(f, block, index) && releases(p, function, summaries, block, index, origin);
            assert(released(p, function, summaries, escaped, block, index));
        }
    } else {
        let owner = choose|owner: Origin|
            escapes_within(p, function, summaries, owner, (steps - 1) as nat) && #[trigger] owns(
                p,
                function,
                owner,
                origin,
            );
        lemma_escapes_possible(p, function, summaries, owner, (steps - 1) as nat);
        lemma_origins(p, function, owner);
        let j = choose|j: int| 0 <= j < origins_of(p, function).len() && origins_of(p, function)[j] == owner;
        lemma_escape_closed(p, function, summaries, escaped, j, (steps - 1) as nat);
        let (block, index) = choose|block: int, index: int| #[trigger]
            live_operation(f, block, index) && stores(p, function, block, index, owner, origin);
        assert(owned_by_escaped(p, function, block, index, escaped, origin)) by {
            assert(stores(p, function, block, index, origins_of(p, function)[j], origin));
        }
        assert(released(p, function, summaries, escaped, block, index));
    }
}

proof fn lemma_escapes_owned(
    p: &Program,
    function: int,
    summaries: Seq<SummaryView>,
    block: int,
    index: int,
    owner: Origin,
    origin: Origin,
)
    requires
        live_operation(&p.functions@[function], block, index),
        stores(p, function, block, index, owner, origin),
        escapes(p, function, summaries, owner),
    ensures
        escapes(p, function, summaries, origin),
{
    let steps = choose|steps: nat| escapes_within(p, function, summaries, owner, steps);
    assert(owns(p, function, owner, origin));
    assert(escapes_within(p, function, summaries, owner, ((steps + 1) - 1) as nat));
    assert(escapes_within(p, function, summaries, origin, steps + 1));
}

/// One pass over an operation for the origins that escape.
fn release_at(
    p: &Program,
    function: usize,
    known: &Vec<FunctionSummary>,
    block: usize,
    index: usize,
    all: &Vec<Origin>,
    facts: &Vec<Vec<bool>>,
    escaped: &mut Vec<bool>,
    changed: &mut bool,
)
    requires
        valid(p),
        function < p.functions@.len(),
        live_operation(&p.functions@[function as int], block as int, index as int),
        known@.len() == p.functions@.len(),
        all@ == origins_of(p, function as int),
        is_fact_table(p, function as int, facts@),
        old(escaped)@.len() == all@.len(),
        forall|k: int|
            0 <= k < old(escaped)@.len() && old(escaped)@[k] ==> escapes(
                p,
                function as int,
                known_views(known@),
                #[trigger] origins_of(p, function as int)[k],
            ),
    ensures
        final(escaped)@.len() == old(escaped)@.len(),
        forall|k: int|
            0 <= k < final(escaped)@.len() && final(escaped)@[k] ==> escapes(
                p,
                function as int,
                known_views(known@),
                #[trigger] origins_of(p, function as int)[k],
            ),
        forall|k: int| 0 <= k < old(escaped)@.len() && old(escaped)@[k] ==> #[trigger] final(escaped)@[k],
        *old(changed) ==> *final(changed),
        !*final(changed) ==> final(escaped)@ == old(escaped)@,
        room(final(escaped)@) <= room(old(escaped)@),
        *final(changed) && !*old(changed) ==> room(final(escaped)@) < room(old(escaped)@),
        !*final(changed) ==> released(
            p,
            function as int,
            known_views(known@),
            final(escaped)@,
            block as int,
            index as int,
        ),
{
    let ghost views = known_views(known@);
    let mut which: usize = 0;
    while which < all.len()
        invariant
            valid(p),
            function < p.functions@.len(),
            live_operation(&p.functions@[function as int], block as int, index as int),
            known@.len() == p.functions@.len(),
            views == known_views(known@),
            all@ == origins_of(p, function as int),
            is_fact_table(p, function as int, facts@),
            which <= all@.len(),
            escaped@.len() == old(escaped)@.len() == all@.len(),
            forall|k: int|
                0 <= k < escaped@.len() && escaped@[k] ==> escapes(
                    p,
                    function as int,
                    views,
                    #[trigger] origins_of(p, function as int)[k],
                ),
            forall|k: int| 0 <= k < old(escaped)@.len() && old(escaped)@[k] ==> #[trigger] escaped@[k],
            *old(changed) ==> *changed,
            !*changed ==> escaped@ == old(escaped)@,
            room(escaped@) <= room(old(escaped)@),
            *changed && !*old(changed) ==> room(escaped@) < room(old(escaped)@),
            !*changed ==> forall|k: int|
                0 <= k < which && (releases(
                    p,
                    function as int,
                    views,
                    block as int,
                    index as int,
                    #[trigger] origins_of(p, function as int)[k],
                ) || owned_by_escaped(
                    p,
                    function as int,
                    block as int,
                    index as int,
                    escaped@,
                    origins_of(p, function as int)[k],
                )) ==> escaped@[k],
        decreases all@.len() - which,
    {
        if lets_out(p, function, known, block, index, all, facts, escaped, which) {
            proof {
                let origin = all@[which as int];
                if releases(p, function as int, views, block as int, index as int, origin) {
                    assert(escapes_directly(p, function as int, views, origin));
                    assert(escapes_within(p, function as int, views, origin, 0));
                } else {
                    let j = choose|j: int|
                        0 <= j < escaped@.len() && escaped@[j] && stores(
                            p,
                            function as int,
                            block as int,
                            index as int,
                            #[trigger] origins_of(p, function as int)[j],
                            origin,
                        );
                    lemma_escapes_owned(
                        p,
                        function as int,
                        views,
                        block as int,
                        index as int,
                        origins_of(p, function as int)[j],
                        origin,
                    );
                }
            }
            mark(escaped, which, changed);
        }
        which = which + 1;
    }
}

/// Which origins escape from the function.
fn escaped_origins(
    p: &Program,
    function: usize,
    known: &Vec<FunctionSummary>,
    reach: &Vec<bool>,
    all: &Vec<Origin>,
    facts: &Vec<Vec<bool>>,
    carrying: &Vec<bool>,
    cautious: bool,
) -> (result: Vec<bool>)
    requires
        valid(p),
        function < p.functions@.len(),
        known@.len() == p.functions@.len(),
        is_reach_table(&p.functions@[function as int], reach@),
        all@ == origins_of(p, function as int),
        is_fact_table(p, function as int, facts@),
        is_carrying_table(p, carrying@),
        cautious == conservative(p, function as int),
    ensures
        is_escape_table(p, function as int, known_views(known@), result@),
{
    let f = &p.functions[function];
    let ghost views = known_views(known@);
    let mut escaped = cleared(all.len());
    escape_at_ends(p, function, reach, all, facts, &mut escaped, Ghost(views));
    if cautious {
        escape_parameters(p, function, all, carrying, &mut escaped, Ghost(views));
    }
    loop
        invariant
            valid(p),
            function < p.functions@.len(),
            f == &p.functions@[function as int],
            known@.len() == p.functions@.len(),
            views == known_views(known@),
            is_reach_table(f, reach@),
            all@ == origins_of(p, function as int),
            is_fact_table(p, function as int, facts@),
            escaped@.len() == all@.len(),
            forall|k: int|
                0 <= k < escaped@.len() && escaped@[k] ==> escapes(
                    p,
                    function as int,
                    views,
                    #[trigger] origins_of(p, function as int)[k],
                ),
            ends_marked(p, function as int, escaped@),
            conservative(p, function as int) ==> parameters_marked(p, function as int, escaped@),
        ensures
            is_escape_table(p, function as int, views, escaped@),
        decreases room(escaped@),
    {
        let ghost before = escaped@;
        let mut changed = false;
        let mut block: usize = 0;
        while block < f.blocks.len()
            invariant
                valid(p),
                function < p.functions@.len(),
                f == &p.functions@[function as int],
                known@.len() == p.functions@.len(),
                views == known_views(known@),
                is_reach_table(f, reach@),
                all@ == origins_of(p, function as int),
                is_fact_table(p, function as int, facts@),
                block <= f.blocks@.len(),
                escaped@.len() == before.len() == all@.len(),
                forall|k: int|
                    0 <= k < escaped@.len() && escaped@[k] ==> escapes(
                        p,
                        function as int,
                        views,
                        #[trigger] origins_of(p, function as int)[k],
                    ),
                forall|k: int| 0 <= k < before.len() && before[k] ==> #[trigger] escaped@[k],
                !changed ==> escaped@ == before,
                room(escaped@) <= room(before),
                changed ==> room(escaped@) < room(before),
                !changed ==> forall|b: int, i: int| #[trigger]
                    live_operation(f, b, i) && b < block ==> released(p, function as int, views, escaped@, b, i),
            decreases f.blocks@.len() - block,
        {
            if reach[block] {
                let mut index: usize = 0;
                while index < f.blocks[block].operations.len()
                    invariant
                        valid(p),
                        function < p.functions@.len(),
                        f == &p.functions@[function as int],
                        known@.len() == p.functions@.len(),
                        views == known_views(known@),
                        reachable(f, block as int),
                        all@ == origins_of(p, function as int),
                        is_fact_table(p, function as int, facts@),
                        block < f.blocks@.len(),
                        index <= f.blocks@[block as int].operations@.len(),
                        escaped@.len() == before.len() == all@.len(),
                        forall|k: int|
                            0 <= k < escaped@.len() && escaped@[k] ==> escapes(
                                p,
                                function as int,
                                views,
                                #[trigger] origins_of(p, function as int)[k],
                            ),
                        forall|k: int| 0 <= k < before.len() && before[k] ==> #[trigger] escaped@[k],
                        !changed ==> escaped@ == before,
                        room(escaped@) <= room(before),
                        changed ==> room(escaped@) < room(before),
                        !changed ==> forall|b: int, i: int| #[trigger]
                            live_operation(f, b, i) && b < block ==> released(
                                p,
                                function as int,
                                views,
                                escaped@,
                                b,
                                i,
                            ),
                        !changed ==> forall|i: int|
                            0 <= i < index ==> #[trigger] released(
                                p,
                                function as int,
                                views,
                                escaped@,
                                block as int,
                                i,
                            ),
                    decreases f.blocks@[block as int].operations@.len() - index,
                {
                    release_at(p, function, known, block, index, all, facts, &mut escaped, &mut changed);
                    index = index + 1;
                }
            }
            block = block + 1;
        }
        if !changed {
            proof {
                assert forall|k: int| 0 <= k < escaped@.len() implies escaped@[k] == escapes(
                    p,
                    function as int,
                    views,
                    #[trigger] origins_of(p, function as int)[k],
                ) by {
                    let origin = origins_of(p, function as int)[k];
                    if escapes(p, function as int, views, origin) {
                        let steps = choose|steps: nat| escapes_within(p, function as int, views, origin, steps);
                        lemma_escape_closed(p, function as int, views, escaped@, k, steps);
                    }
                }
            }
            break;
        }
    }
    escaped
}

/// Everything that a live block returns is set.
spec fn ends_marked(p: &Program, function: int, escaped: Seq<bool>) -> bool {
    forall|k: int, block: int|
        0 <= k < escaped.len() && #[trigger] returns_origin(p, function, block, origins_of(p, function)[k])
            ==> escaped[k]
}

/// Every parameter that can hold references is set.
spec fn parameters_marked(p: &Program, function: int, escaped: Seq<bool>) -> bool {
    forall|k: int, local: LocalId|
        0 <= k < escaped.len() && #[trigger] is_parameter_origin(
            p,
            &p.functions@[function],
            local,
            origins_of(p, function)[k],
        ) ==> escaped[k]
}

/// Sets what live blocks return.
fn escape_at_ends(
    p: &Program,
    function: usize,
    reach: &Vec<bool>,
    all: &Vec<Origin>,
    facts: &Vec<Vec<bool>>,
    escaped: &mut Vec<bool>,
    Ghost(views): Ghost<Seq<SummaryView>>,
)
    requires
        valid(p),
        function < p.functions@.len(),
        is_reach_table(&p.functions@[function as int], reach@),
        all@ == origins_of(p, function as int),
        is_fact_table(p, function as int, facts@),
        old(escaped)@.len() == all@.len(),
        forall|k: int| 0 <= k < old(escaped)@.len() ==> !old(escaped)@[k],
    ensures
        final(escaped)@.len() == all@.len(),
        forall|k: int|
            0 <= k < final(escaped)@.len() && final(escaped)@[k] ==> escapes(
                p,
                function as int,
                views,
                #[trigger] origins_of(p, function as int)[k],
            ),
        ends_marked(p, function as int, final(escaped)@),
{
    let f = &p.functions[function];
    let mut block: usize = 0;
    while block < f.blocks.len()
        invariant
            valid(p),
            function < p.functions@.len(),
            f == &p.functions@[function as int],
            is_reach_table(f, reach@),
            all@ == origins_of(p, function as int),
            is_fact_table(p, function as int, facts@),
            block <= f.blocks@.len(),
            escaped@.len() == all@.len(),
            forall|k: int|
                0 <= k < escaped@.len() && escaped@[k] ==> escapes(
                    p,
                    function as int,
                    views,
                    #[trigger] origins_of(p, function as int)[k],
                ),
            forall|k: int, b: int|
                0 <= k < escaped@.len() && b < block && #[trigger] returns_origin(
                    p,
                    function as int,
                    b,
                    origins_of(p, function as int)[k],
                ) ==> escaped@[k],
        decreases f.blocks@.len() - block,
    {
        if reach[block] {
            proof {
                lemma_valid_terminator(p, function as int, block as int);
            }
            if let Some(terminator) = &f.blocks[block].terminator {
                if let TerminatorKind::Return(value) = &terminator.kind {
                    assert(operand_fits(p, function as int, *value));
                    let mut which: usize = 0;
                    while which < all.len()
                        invariant
                            valid(p),
                            function < p.functions@.len(),
                            f == &p.functions@[function as int],
                            block < f.blocks@.len(),
                            reachable(f, block as int),
                            f.blocks@[block as int].terminator == Some(*terminator),
                            terminator.kind == TerminatorKind::Return(*value),
                            operand_fits(p, function as int, *value),
                            all@ == origins_of(p, function as int),
                            is_fact_table(p, function as int, facts@),
                            which <= all@.len(),
                            escaped@.len() == all@.len(),
                            forall|k: int|
                                0 <= k < escaped@.len() && escaped@[k] ==> escapes(
                                    p,
                                    function as int,
                                    views,
                                    #[trigger] origins_of(p, function as int)[k],
                                ),
                            forall|k: int, b: int|
                                0 <= k < escaped@.len() && b < block && #[trigger] returns_origin(
                                    p,
                                    function as int,
                                    b,
                                    origins_of(p, function as int)[k],
                                ) ==> escaped@[k],
                            forall|k: int|
                                0 <= k < which && #[trigger] returns_origin(
                                    p,
                                    function as int,
                                    block as int,
                                    origins_of(p, function as int)[k],
                                ) ==> escaped@[k],
                        decreases all@.len() - which,
                    {
                        if operand_yields(p, function, facts, value, which) {
                            proof {
                                let origin = all@[which as int];
                                assert(returns_origin(p, function as int, block as int, origin));
                                assert(escapes_directly(p, function as int, views, origin));
                                assert(escapes_within(p, function as int, views, origin, 0));
                            }
                            escaped.set(which, true);
                        }
                        which = which + 1;
                    }
                }
            }
        }
        block = block + 1;
    }
}

/// Sets the parameters that can hold references.
fn escape_parameters(
    p: &Program,
    function: usize,
    all: &Vec<Origin>,
    carrying: &Vec<bool>,
    escaped: &mut Vec<bool>,
    Ghost(views): Ghost<Seq<SummaryView>>,
)
    requires
        valid(p),
        function < p.functions@.len(),
        conservative(p, function as int),
        all@ == origins_of(p, function as int),
        is_carrying_table(p, carrying@),
        old(escaped)@.len() == all@.len(),
        forall|k: int|
            0 <= k < old(escaped)@.len() && old(escaped)@[k] ==> escapes(
                p,
                function as int,
                views,
                #[trigger] origins_of(p, function as int)[k],
            ),
        ends_marked(p, function as int, old(escaped)@),
    ensures
        final(escaped)@.len() == all@.len(),
        forall|k: int|
            0 <= k < final(escaped)@.len() && final(escaped)@[k] ==> escapes(
                p,
                function as int,
                views,
                #[trigger] origins_of(p, function as int)[k],
            ),
        ends_marked(p, function as int, final(escaped)@),
        parameters_marked(p, function as int, final(escaped)@),
{
    let f = &p.functions[function];
    proof {
        lemma_valid_header(p, function as int);
    }
    let mut which: usize = 0;
    while which < all.len()
        invariant
            valid(p),
            function < p.functions@.len(),
            f == &p.functions@[function as int],
            header_check(p, f) is Ok,
            conservative(p, function as int),
            all@ == origins_of(p, function as int),
            is_carrying_table(p, carrying@),
            which <= all@.len(),
            escaped@.len() == all@.len(),
            forall|k: int|
                0 <= k < escaped@.len() && escaped@[k] ==> escapes(
                    p,
                    function as int,
                    views,
                    #[trigger] origins_of(p, function as int)[k],
                ),
            ends_marked(p, function as int, escaped@),
            forall|k: int, local: LocalId|
                0 <= k < which && #[trigger] is_parameter_origin(p, f, local, origins_of(p, function as int)[k])
                    ==> escaped@[k],
        decreases all@.len() - which,
    {
        if let Origin::Parameter(position) = all[which] {
            if position < f.parameters.len() {
                let local = f.parameters[position];
                proof {
                    lemma_valid_parameter(p, f, position as int);
                    lemma_valid_local(p, f, local.0 as int);
                }
                let ty = f.locals[local.0].ty;
                assert(TypeId(ty.0 as int as usize) == ty);
                assert(carrying@[ty.0 as int] == carries(p, ty));
                if carrying[ty.0] {
                    proof {
                        let origin = all@[which as int];
                        assert(is_parameter_origin(p, f, local, origin));
                        assert(escapes_directly(p, function as int, views, origin));
                        assert(escapes_within(p, function as int, views, origin, 0));
                    }
                    escaped.set(which, true);
                }
            }
        }
        which = which + 1;
    }
}

fn operand_may_carry(p: &Program, function: usize, carrying: &Vec<bool>, operand: &Operand) -> (result: bool)
    requires
        valid(p),
        function < p.functions@.len(),
        is_carrying_table(p, carrying@),
        operand_fits(p, function as int, *operand),
    ensures
        result == operand_carries(p, function as int, *operand),
{
    let ty = operand_type_of(p, FunctionId(function), operand);
    proof {
        lemma_operand_type(p, function as int, *operand);
        assert(TypeId(ty.0 as int as usize) == ty);
        assert(carrying@[ty.0 as int] == carries(p, ty));
    }
    carrying[ty.0]
}

fn is_unknown_operation(p: &Program, function: usize, carrying: &Vec<bool>, kind: &OperationKind) -> (result: bool)
    requires
        valid(p),
        function < p.functions@.len(),
        is_carrying_table(p, carrying@),
        operation_fits(p, function as int, *kind),
    ensures
        result == unknown_operation(p, function as int, *kind),
{
    match kind {
        OperationKind::Aggregate { aggregate, .. } => match aggregate {
            Aggregate::List { ty, .. } => {
                assert(TypeId(ty.0 as int as usize) == *ty);
                assert(carrying@[ty.0 as int] == carries(p, *ty));
                carrying[ty.0]
            },
            Aggregate::Mapping { ty, .. } => {
                assert(TypeId(ty.0 as int as usize) == *ty);
                assert(carrying@[ty.0 as int] == carries(p, *ty));
                carrying[ty.0]
            },
            _ => false,
        },
        OperationKind::Builtin { receiver, arguments, .. } => {
            if operand_may_carry(p, function, carrying, receiver) {
                return true;
            }
            let mut index: usize = 0;
            while index < arguments.len()
                invariant
                    valid(p),
                    function < p.functions@.len(),
                    is_carrying_table(p, carrying@),
                    index <= arguments@.len(),
                    *kind matches OperationKind::Builtin { receiver: r, arguments: found, .. } && found == arguments,
                    forall|i: int|
                        0 <= i < arguments@.len() ==> operand_fits(p, function as int, #[trigger] arguments@[i]),
                    forall|i: int|
                        0 <= i < index ==> !operand_carries(p, function as int, #[trigger] arguments@[i]),
                decreases arguments@.len() - index,
            {
                if operand_may_carry(p, function, carrying, &arguments[index]) {
                    return true;
                }
                index = index + 1;
            }
            false
        },
        OperationKind::BeginIteration { iterable } => operand_may_carry(p, function, carrying, iterable),
        OperationKind::EndIteration { iterable } => operand_may_carry(p, function, carrying, iterable),
        OperationKind::IterationValue { iterable, .. } => operand_may_carry(p, function, carrying, iterable),
        _ => false,
    }
}

fn is_conservative(
    p: &Program,
    function: usize,
    reach: &Vec<bool>,
    carrying: &Vec<bool>,
    retaining: &Vec<bool>,
) -> (result: bool)
    requires
        valid(p),
        function < p.functions@.len(),
        is_reach_table(&p.functions@[function as int], reach@),
        is_carrying_table(p, carrying@),
        is_retention_table(p, retaining@),
    ensures
        result == conservative(p, function as int),
{
    let f = &p.functions[function];
    proof {
        lemma_valid_header(p, function as int);
    }
    let mut local: usize = 0;
    while local < f.locals.len()
        invariant
            f == &p.functions@[function as int],
            header_check(p, f) is Ok,
            is_retention_table(p, retaining@),
            local <= f.locals@.len(),
            forall|i: int| 0 <= i < local ==> !retention_unknown(p, (#[trigger] f.locals@[i]).ty),
        decreases f.locals@.len() - local,
    {
        let ty = f.locals[local].ty;
        proof {
            lemma_valid_local(p, f, local as int);
            assert(TypeId(ty.0 as int as usize) == ty);
            assert(retaining@[ty.0 as int] == retention_unknown(p, ty));
        }
        if retaining[ty.0] {
            assert(retention_unknown(p, f.locals@[local as int].ty));
            return true;
        }
        local = local + 1;
    }
    let mut block: usize = 0;
    while block < f.blocks.len()
        invariant
            valid(p),
            function < p.functions@.len(),
            f == &p.functions@[function as int],
            is_reach_table(f, reach@),
            is_carrying_table(p, carrying@),
            block <= f.blocks@.len(),
            forall|b: int, i: int| #[trigger]
                live_operation(f, b, i) && b < block ==> !unknown_operation(p, function as int, operation_at(f, b, i)),
        decreases f.blocks@.len() - block,
    {
        if reach[block] {
            let mut index: usize = 0;
            while index < f.blocks[block].operations.len()
                invariant
                    valid(p),
                    function < p.functions@.len(),
                    f == &p.functions@[function as int],
                    reachable(f, block as int),
                    is_carrying_table(p, carrying@),
                    block < f.blocks@.len(),
                    index <= f.blocks@[block as int].operations@.len(),
                    forall|b: int, i: int| #[trigger]
                        live_operation(f, b, i) && (b < block || b == block && i < index) ==> !unknown_operation(
                            p,
                            function as int,
                            operation_at(f, b, i),
                        ),
                decreases f.blocks@[block as int].operations@.len() - index,
            {
                proof {
                    lemma_operation_fits(p, function as int, block as int, index as int);
                }
                if is_unknown_operation(p, function, carrying, &f.blocks[block].operations[index].kind) {
                    assert(live_operation(f, block as int, index as int));
                    return true;
                }
                index = index + 1;
            }
        }
        block = block + 1;
    }
    false
}

/// The allocations of a function with how long they live.
pub open spec fn classified(
    p: &Program,
    function: int,
    summaries: Seq<SummaryView>,
) -> Seq<(AllocationId, AllocationClass)> {
    let sites = function_allocations(p, function, p.functions@[function].blocks@.len());
    Seq::new(
        sites.len(),
        |i: int|
            (
                sites[i],
                class_of(p, function, summaries, sites[i].block.0 as int, sites[i].operation as int),
            ),
    )
}

/// The allocations of the first `count` functions.
pub open spec fn planned(p: &Program, summaries: Seq<SummaryView>, count: nat) -> Seq<(AllocationId, AllocationClass)>
    decreases count,
{
    if count == 0 {
        seq![]
    } else {
        planned(p, summaries, (count - 1) as nat) + classified(p, count - 1, summaries)
    }
}

/// Whether some allocation of the function is scoped.
pub open spec fn any_scoped(allocations: Seq<(AllocationId, AllocationClass)>, function: int) -> bool {
    exists|i: int|
        0 <= i < allocations.len() && (#[trigger] allocations[i]).0.function.0 == function && allocations[i].1
            == AllocationClass::Scoped
}

/// The plan for a program: what callers know of each function follows from what is known of its
/// callees, every allocation is listed with its lifetime, and the functions with scoped
/// allocations are marked.
pub open spec fn is_plan(p: &Program, plan: &AllocationPlan) -> bool {
    let views = known_views(plan.summaries@);
    &&& plan.summaries@.len() == p.functions@.len()
    &&& forall|i: int| 0 <= i < views.len() ==> #[trigger] views[i] == summary_of(p, i, views)
    &&& plan.allocations@ == planned(p, views, p.functions@.len())
    &&& plan.has_scoped@ == Seq::new(p.functions@.len(), |i: int| any_scoped(plan.allocations@, i))
}

/// What is known of a function depends only on what is known of the functions that it calls.
proof fn lemma_same_escapes(
    p: &Program,
    function: int,
    left: Seq<SummaryView>,
    right: Seq<SummaryView>,
    origin: Origin,
    steps: nat,
)
    requires
        forall|callee: int| #[trigger] calls(p, function, callee) ==> left[callee] == right[callee],
        escapes_within(p, function, left, origin, steps),
    ensures
        escapes_within(p, function, right, origin, steps),
    decreases steps,
{
    let f = &p.functions@[function];
    if escapes_directly(p, function, left, origin) {
        if exists|block: int, index: int| #[trigger]
            live_operation(f, block, index) && releases(p, function, left, block, index, origin) {
            let (block, index) = choose|block: int, index: int| #[trigger]
                live_operation(f, block, index) && releases(p, function, left, block, index, origin);
            match operation_at(f, block, index) {
                OperationKind::Call { function: callee, .. } => {
                    assert(calls(p, function, callee.0 as int));
                },
                _ => {},
            }
            assert(releases(p, function, right, block, index, origin));
        }
        assert(escapes_directly(p, function, right, origin));
    } else {
        let owner = choose|owner: Origin|
            escapes_within(p, function, left, owner, (steps - 1) as nat) && #[trigger] owns(
                p,
                function,
                owner,
                origin,
            );
        lemma_same_escapes(p, function, left, right, owner, (steps - 1) as nat);
    }
}

proof fn lemma_same_summary(p: &Program, function: int, left: Seq<SummaryView>, right: Seq<SummaryView>)
    requires
        resolved(p, function) ==> forall|callee: int| #[trigger]
            calls(p, function, callee) ==> left[callee] == right[callee],
    ensures
        summary_of(p, function, left) == summary_of(p, function, right),
        classified(p, function, left) == classified(p, function, right),
{
    if resolved(p, function) {
        assert forall|origin: Origin| #[trigger] escapes(p, function, left, origin) == escapes(
            p,
            function,
            right,
            origin,
        ) by {
            if escapes(p, function, left, origin) {
                let steps = choose|steps: nat| escapes_within(p, function, left, origin, steps);
                lemma_same_escapes(p, function, left, right, origin, steps);
            }
            if escapes(p, function, right, origin) {
                let steps = choose|steps: nat| escapes_within(p, function, right, origin, steps);
                lemma_same_escapes(p, function, right, left, origin, steps);
            }
        }
        assert(summary_of(p, function, left).parameter_escapes =~= summary_of(p, function, right).parameter_escapes);
    }
    assert(classified(p, function, left) =~= classified(p, function, right));
}

fn analyse_function(
    p: &Program,
    function: usize,
    known: &Vec<FunctionSummary>,
    reach: &Vec<bool>,
    carrying: &Vec<bool>,
    retaining: &Vec<bool>,
) -> (result: (FunctionSummary, Vec<(AllocationId, AllocationClass)>))
    requires
        valid(p),
        function < p.functions@.len(),
        known@.len() == p.functions@.len(),
        resolved(p, function as int),
        is_reach_table(&p.functions@[function as int], reach@),
        is_carrying_table(p, carrying@),
        is_retention_table(p, retaining@),
    ensures
        result.0@ == summary_of(p, function as int, known_views(known@)),
        result.1@ == classified(p, function as int, known_views(known@)),
{
    let f = &p.functions[function];
    let ghost views = known_views(known@);
    let sites = allocations_in(p, function);
    let all = origins(p, function, &sites);
    let facts = collect_facts(p, function, &all, reach, carrying);
    let cautious = is_conservative(p, function, reach, carrying, retaining);
    let escaped = escaped_origins(p, function, known, reach, &all, &facts, carrying, cautious);
    let mut parameter_escapes: Vec<bool> = Vec::new();
    let count = f.parameters.len();
    let mut position: usize = 0;
    while position < count
        invariant
            function < p.functions@.len(),
            f == &p.functions@[function as int],
            count == f.parameters@.len(),
            all@ == origins_of(p, function as int),
            is_escape_table(p, function as int, views, escaped@),
            position <= count,
            parameter_escapes@ == Seq::new(
                position as nat,
                |i: int| escapes(p, function as int, views, Origin::Parameter(i as usize)),
            ),
        decreases count - position,
    {
        assert(origins_of(p, function as int)[position as int] == Origin::Parameter(position));
        parameter_escapes.push(escaped[position]);
        position = position + 1;
        assert(parameter_escapes@ =~= Seq::new(
            position as nat,
            |i: int| escapes(p, function as int, views, Origin::Parameter(i as usize)),
        ));
    }
    let mut classes: Vec<(AllocationId, AllocationClass)> = Vec::new();
    let mut index: usize = 0;
    while index < sites.len()
        invariant
            valid(p),
            function < p.functions@.len(),
            f == &p.functions@[function as int],
            count == f.parameters@.len(),
            resolved(p, function as int),
            is_reach_table(f, reach@),
            cautious == conservative(p, function as int),
            sites@ == function_allocations(p, function as int, f.blocks@.len()),
            all@ == origins_of(p, function as int),
            is_escape_table(p, function as int, views, escaped@),
            index <= sites@.len(),
            classes@.len() == index,
            forall|i: int|
                0 <= i < index ==> #[trigger] classes@[i] == classified(p, function as int, views)[i],
        decreases sites@.len() - index,
    {
        let id = sites[index];
        proof {
            assert(f.blocks@.len() == f.blocks.len());
            lemma_function_allocations(p, function as int, f.blocks@.len());
            assert(is_site(p, function_allocations(p, function as int, f.blocks@.len())[index as int]));
            assert(all@[count + index] == Origin::Allocation(id));
            assert(id == allocation_at(function as int, id.block.0 as int, id.operation as int));
            assert(origins_of(p, function as int).len() == count + sites@.len() + 1);
            assert(all.len() == all@.len());
        }
        let class = if !cautious && reach[id.block.0] && !escaped[count + index] {
            AllocationClass::Scoped
        } else {
            AllocationClass::Heap
        };
        classes.push((id, class));
        index = index + 1;
    }
    assert(classes@ =~= classified(p, function as int, views));
    (FunctionSummary { parameter_escapes, conservative: cautious }, classes)
}

proof fn lemma_resolved_more(p: &Program, function: int, depth: nat, more: nat)
    requires
        depth <= more,
        resolved_within(p, function, depth),
    ensures
        resolved_within(p, function, more),
    decreases depth,
{
    assert forall|callee: int| #[trigger] calls(p, function, callee) implies resolved_within(
        p,
        callee,
        (more - 1) as nat,
    ) by {
        lemma_resolved_more(p, callee, (depth - 1) as nat, (more - 1) as nat);
    }
}

/// The functions that a function of a valid program calls are functions of it.
proof fn lemma_callee(p: &Program, function: int, callee: int)
    requires
        valid(p),
        0 <= function < p.functions@.len(),
        calls(p, function, callee),
    ensures
        0 <= callee < p.functions@.len(),
{
    let f = &p.functions@[function];
    let (block, index) = choose|block: int, index: int| #[trigger]
        live_operation(f, block, index) && match operation_at(f, block, index) {
            OperationKind::Call { function: called, .. } => called.0 == callee,
            _ => false,
        };
    lemma_operation_fits(p, function, block, index);
}

proof fn lemma_resolved_done(p: &Program, done: Seq<bool>, function: int, depth: nat)
    requires
        valid(p),
        done.len() == p.functions@.len(),
        0 <= function < done.len(),
        forall|i: int|
            0 <= i < done.len() && (forall|callee: int| #[trigger] calls(p, i, callee) ==> done[callee])
                ==> #[trigger] done[i],
        resolved_within(p, function, depth),
    ensures
        done[function],
    decreases depth,
{
    assert forall|callee: int| #[trigger] calls(p, function, callee) implies done[callee] by {
        lemma_callee(p, function, callee);
        lemma_resolved_done(p, done, callee, (depth - 1) as nat);
    }
}

/// Whether everything that a function calls is done.
fn callees_done(p: &Program, function: usize, reach: &Vec<bool>, done: &Vec<bool>) -> (result: bool)
    requires
        valid(p),
        function < p.functions@.len(),
        is_reach_table(&p.functions@[function as int], reach@),
        done@.len() == p.functions@.len(),
    ensures
        result == forall|callee: int| #[trigger] calls(p, function as int, callee) ==> done@[callee],
{
    let f = &p.functions[function];
    let mut block: usize = 0;
    while block < f.blocks.len()
        invariant
            valid(p),
            function < p.functions@.len(),
            f == &p.functions@[function as int],
            is_reach_table(f, reach@),
            done@.len() == p.functions@.len(),
            block <= f.blocks@.len(),
            forall|b: int, i: int| #[trigger]
                live_operation(f, b, i) && b < block ==> match operation_at(f, b, i) {
                    OperationKind::Call { function: called, .. } => done@[called.0 as int],
                    _ => true,
                },
        decreases f.blocks@.len() - block,
    {
        if reach[block] {
            let mut index: usize = 0;
            while index < f.blocks[block].operations.len()
                invariant
                    valid(p),
                    function < p.functions@.len(),
                    f == &p.functions@[function as int],
                    reachable(f, block as int),
                    done@.len() == p.functions@.len(),
                    block < f.blocks@.len(),
                    index <= f.blocks@[block as int].operations@.len(),
                    forall|b: int, i: int| #[trigger]
                        live_operation(f, b, i) && (b < block || b == block && i < index) ==> match operation_at(
                            f,
                            b,
                            i,
                        ) {
                            OperationKind::Call { function: called, .. } => done@[called.0 as int],
                            _ => true,
                        },
                decreases f.blocks@[block as int].operations@.len() - index,
            {
                proof {
                    lemma_operation_fits(p, function as int, block as int, index as int);
                    assert(live_operation(f, block as int, index as int));
                }
                if let OperationKind::Call { function: called, .. } = &f.blocks[block].operations[index].kind {
                    if !done[called.0] {
                        assert(calls(p, function as int, called.0 as int));
                        return false;
                    }
                }
                index = index + 1;
            }
        }
        block = block + 1;
    }
    true
}

/// What is taken for granted of a function on a cycle of calls: every reference that it is given escapes,
/// and everything that it builds lives on.
fn worst_case(p: &Program, function: usize, carrying: &Vec<bool>) -> (result: (
    FunctionSummary,
    Vec<(AllocationId, AllocationClass)>,
))
    requires
        valid(p),
        function < p.functions@.len(),
        !resolved(p, function as int),
        is_carrying_table(p, carrying@),
    ensures
        forall|summaries: Seq<SummaryView>|
            result.0@ == #[trigger] summary_of(p, function as int, summaries),
        forall|summaries: Seq<SummaryView>| result.1@ == #[trigger] classified(p, function as int, summaries),
{
    let f = &p.functions[function];
    proof {
        lemma_valid_header(p, function as int);
    }
    let mut parameter_escapes: Vec<bool> = Vec::new();
    let mut position: usize = 0;
    while position < f.parameters.len()
        invariant
            f == &p.functions@[function as int],
            header_check(p, f) is Ok,
            is_carrying_table(p, carrying@),
            position <= f.parameters@.len(),
            parameter_escapes@ == Seq::new(
                position as nat,
                |i: int| carries(p, f.locals@[f.parameters@[i].0 as int].ty),
            ),
        decreases f.parameters@.len() - position,
    {
        let local = f.parameters[position];
        proof {
            lemma_valid_parameter(p, f, position as int);
            lemma_valid_local(p, f, local.0 as int);
        }
        let ty = f.locals[local.0].ty;
        assert(TypeId(ty.0 as int as usize) == ty);
        assert(carrying@[ty.0 as int] == carries(p, ty));
        parameter_escapes.push(carrying[ty.0]);
        position = position + 1;
        assert(parameter_escapes@ =~= Seq::new(
            position as nat,
            |i: int| carries(p, f.locals@[f.parameters@[i].0 as int].ty),
        ));
    }
    let sites = allocations_in(p, function);
    let mut classes: Vec<(AllocationId, AllocationClass)> = Vec::new();
    let mut index: usize = 0;
    while index < sites.len()
        invariant
            index <= sites@.len(),
            classes@.len() == index,
            forall|i: int| 0 <= i < index ==> #[trigger] classes@[i] == (sites@[i], AllocationClass::Heap),
        decreases sites@.len() - index,
    {
        classes.push((sites[index], AllocationClass::Heap));
        index = index + 1;
    }
    assert forall|summaries: Seq<SummaryView>| classes@ == #[trigger] classified(p, function as int, summaries) by {
        assert(classes@ =~= classified(p, function as int, summaries));
    }
    assert forall|summaries: Seq<SummaryView>| parameter_escapes@ == (#[trigger] summary_of(
        p,
        function as int,
        summaries,
    )).parameter_escapes by {
        assert(parameter_escapes@ =~= summary_of(p, function as int, summaries).parameter_escapes);
    }
    (FunctionSummary { parameter_escapes, conservative: true }, classes)
}

/// Why there is no allocation plan.
#[derive(Clone, Debug, Eq, PartialEq)]
pub struct EscapeError {
    pub function: Option<FunctionId>,
    pub block: Option<BlockId>,
    pub site: Option<OperationSite>,
    pub message: String,
}

/// How an escape error is shown.
pub open spec fn escape_error_text(error: ErrorView) -> Seq<char> {
    "escape analysis invariant"@ + function_text(error.function) + block_text(error.block) + site_text(error.site)
        + ": "@ + error.message
}

impl EscapeError {
    pub open spec fn view(&self) -> ErrorView {
        ErrorView { function: self.function, block: self.block, site: self.site, message: self.message@ }
    }

    pub fn to_string(&self) -> (result: String)
        ensures
            result@ == escape_error_text(self@),
    {
        let mut text = "escape analysis invariant".to_owned();
        if let Some(function) = self.function {
            text.append(" in ");
            text.append(function.to_string().as_str());
        }
        assert(text@ == "escape analysis invariant"@ + function_text(self.function));
        if let Some(block) = self.block {
            text.append(" ");
            text.append(block.to_string().as_str());
        }
        assert(text@ == "escape analysis invariant"@ + function_text(self.function) + block_text(self.block));
        match self.site {
            Some(OperationSite::Operation(index)) => {
                text.append(" op");
                push_decimal(&mut text, index);
            },
            Some(OperationSite::Terminator) => text.append(" terminator"),
            None => {},
        }
        assert(text@ == "escape analysis invariant"@ + function_text(self.function) + block_text(self.block)
            + site_text(self.site));
        text.append(": ");
        text.append(self.message.as_str());
        text
    }
}

/// The identities of listed allocations.
pub open spec fn identities(allocations: Seq<(AllocationId, AllocationClass)>) -> Seq<AllocationId> {
    allocations.map_values(|entry: (AllocationId, AllocationClass)| entry.0)
}

/// The first function from `from` on whose summary has not one entry for each parameter.
pub open spec fn wrong_arity(plan: &AllocationPlan, p: &Program, from: int) -> Option<int>
    decreases p.functions@.len() - from,
{
    if from >= p.functions@.len() {
        None
    } else if plan.summaries@[from].parameter_escapes@.len() != p.functions@[from].parameters@.len() {
        Some(from)
    } else {
        wrong_arity(plan, p, from + 1)
    }
}

/// The first function from `from` on whose mark disagrees with its allocations.
pub open spec fn wrong_scope(plan: &AllocationPlan, p: &Program, from: int) -> Option<int>
    decreases p.functions@.len() - from,
{
    if from >= p.functions@.len() {
        None
    } else if plan.has_scoped@[from] != any_scoped(plan.allocations@, from) {
        Some(from)
    } else {
        wrong_scope(plan, p, from + 1)
    }
}

/// The allocations of the program are listed, each once, and nothing else is.
pub open spec fn lists_sites(allocations: Seq<(AllocationId, AllocationClass)>, p: &Program) -> bool {
    &&& identities(allocations).no_duplicates()
    &&& forall|id: AllocationId| #[trigger] identities(allocations).contains(id) == is_site(p, id)
}

pub open spec fn plan_error(function: Option<FunctionId>, message: Seq<char>) -> Result<(), ErrorView> {
    Err(ErrorView { function, block: None, site: None, message })
}

/// The first thing that is wrong with a plan for a program.
pub open spec fn plan_check(plan: &AllocationPlan, p: &Program) -> Result<(), ErrorView> {
    if plan.summaries@.len() != p.functions@.len() || plan.has_scoped@.len() != p.functions@.len() {
        plan_error(None, "function plan does not cover every function"@)
    } else if wrong_arity(plan, p, 0) is Some {
        plan_error(
            Some(FunctionId(wrong_arity(plan, p, 0)->Some_0 as usize)),
            "parameter summary has the wrong arity"@,
        )
    } else if !lists_sites(plan.allocations@, p) {
        plan_error(None, "allocation plan has duplicate, missing, or invalid entries"@)
    } else if wrong_scope(plan, p, 0) is Some {
        plan_error(
            Some(FunctionId(wrong_scope(plan, p, 0)->Some_0 as usize)),
            "scoped-allocation index disagrees with allocation entries"@,
        )
    } else {
        Ok(())
    }
}

/// A result that agrees with what a check says.
pub open spec fn escape_agrees(result: Result<(), EscapeError>, expected: Result<(), ErrorView>) -> bool {
    match expected {
        Ok(_) => result is Ok,
        Err(error) => result is Err && result->Err_0@ == error,
    }
}

fn error(
    function: Option<FunctionId>,
    block: Option<BlockId>,
    site: Option<OperationSite>,
    message: impl Message,
) -> (result: EscapeError)
    ensures
        result@ == (ErrorView { function, block, site, message: message.text() }),
{
    EscapeError { function, block, site, message: message.into_text() }
}

fn any_scoped_in(allocations: &Vec<(AllocationId, AllocationClass)>, function: usize) -> (result: bool)
    ensures
        result == any_scoped(allocations@, function as int),
{
    let mut index: usize = 0;
    while index < allocations.len()
        invariant
            index <= allocations@.len(),
            forall|i: int|
                0 <= i < index && (#[trigger] allocations@[i]).0.function.0 == function ==> allocations@[i].1
                    != AllocationClass::Scoped,
        decreases allocations@.len() - index,
    {
        let (id, class) = allocations[index];
        if id.function.0 == function && class == AllocationClass::Scoped {
            assert(allocations@[index as int].0.function.0 == function);
            return true;
        }
        index = index + 1;
    }
    false
}

fn is_listed(allocations: &Vec<(AllocationId, AllocationClass)>, count: usize, id: AllocationId) -> (result: bool)
    requires
        count <= allocations@.len(),
    ensures
        result == exists|i: int| 0 <= i < count && (#[trigger] allocations@[i]).0 == id,
{
    let mut index: usize = 0;
    while index < count
        invariant
            index <= count <= allocations@.len(),
            forall|i: int| 0 <= i < index ==> (#[trigger] allocations@[i]).0 != id,
        decreases count - index,
    {
        if allocations[index].0 == id {
            return true;
        }
        index = index + 1;
    }
    false
}

fn names_site(p: &Program, id: AllocationId) -> (result: bool)
    ensures
        result == is_site(p, id),
{
    if id.function.0 >= p.functions.len() {
        return false;
    }
    let f = &p.functions[id.function.0];
    if id.block.0 >= f.blocks.len() || id.operation >= f.blocks[id.block.0].operations.len() {
        return false;
    }
    builds_struct(&f.blocks[id.block.0].operations[id.operation].kind)
}

/// Whether the allocations of a function are all listed.
fn lists_function(allocations: &Vec<(AllocationId, AllocationClass)>, p: &Program, function: usize) -> (result: bool)
    requires
        function < p.functions@.len(),
    ensures
        result == forall|id: AllocationId|
            is_site(p, id) && id.function.0 == function ==> #[trigger] identities(allocations@).contains(id),
{
    let sites = allocations_in(p, function);
    let ghost all = function_allocations(p, function as int, p.functions@[function as int].blocks@.len());
    proof {
        assert(p.functions.len() == p.functions@.len());
        assert(p.functions@[function as int].blocks.len() == p.functions@[function as int].blocks@.len());
        lemma_function_allocations(p, function as int, p.functions@[function as int].blocks@.len());
    }
    let mut index: usize = 0;
    while index < sites.len()
        invariant
            sites@ == all,
            index <= sites@.len(),
            forall|i: int| 0 <= i < all.len() ==> is_site(p, #[trigger] all[i]) && all[i].function.0 == function,
            forall|i: int| 0 <= i < index ==> identities(allocations@).contains(#[trigger] sites@[i]),
        decreases sites@.len() - index,
    {
        if !is_listed(allocations, allocations.len(), sites[index]) {
            let ghost id = sites@[index as int];
            proof {
                assert(is_site(p, all[index as int]));
                if identities(allocations@).contains(id) {
                    let i = choose|i: int| 0 <= i < identities(allocations@).len() && identities(allocations@)[i] == id;
                    assert(allocations@[i].0 == id);
                }
                assert(!identities(allocations@).contains(id));
            }
            return false;
        }
        proof {
            let id = sites@[index as int];
            let i = choose|i: int| 0 <= i < allocations@.len() && (#[trigger] allocations@[i]).0 == id;
            assert(identities(allocations@)[i] == id);
        }
        index = index + 1;
    }
    proof {
        assert forall|id: AllocationId| is_site(p, id) && id.function.0 == function implies #[trigger] identities(
            allocations@,
        ).contains(id) by {
            assert(all.contains(id));
            let i = choose|i: int| 0 <= i < all.len() && all[i] == id;
            assert(identities(allocations@).contains(sites@[i]));
        }
    }
    true
}

fn allocations_are_sites(allocations: &Vec<(AllocationId, AllocationClass)>, p: &Program) -> (result: bool)
    ensures
        result == lists_sites(allocations@, p),
{
    let mut index: usize = 0;
    while index < allocations.len()
        invariant
            index <= allocations@.len(),
            forall|i: int| 0 <= i < index ==> is_site(p, (#[trigger] allocations@[i]).0),
            forall|i: int, j: int|
                0 <= i < j < index ==> (#[trigger] allocations@[i]).0 != (#[trigger] allocations@[j]).0,
        decreases allocations@.len() - index,
    {
        let id = allocations[index].0;
        if !names_site(p, id) {
            assert(identities(allocations@)[index as int] == id);
            assert(identities(allocations@).contains(id));
            return false;
        }
        if is_listed(allocations, index, id) {
            proof {
                let i = choose|i: int| 0 <= i < index && (#[trigger] allocations@[i]).0 == id;
                assert(identities(allocations@)[i] == identities(allocations@)[index as int]);
                assert(!identities(allocations@).no_duplicates());
            }
            return false;
        }
        index = index + 1;
    }
    let mut function: usize = 0;
    while function < p.functions.len()
        invariant
            function <= p.functions@.len(),
            forall|id: AllocationId|
                is_site(p, id) && id.function.0 < function ==> #[trigger] identities(allocations@).contains(id),
        decreases p.functions@.len() - function,
    {
        if !lists_function(allocations, p, function) {
            return false;
        }
        function = function + 1;
    }
    proof {
        assert forall|id: AllocationId| #[trigger] identities(allocations@).contains(id) == is_site(p, id) by {
            if identities(allocations@).contains(id) {
                let i = choose|i: int| 0 <= i < identities(allocations@).len() && identities(allocations@)[i] == id;
                assert(is_site(p, allocations@[i].0));
            }
        }
        assert forall|i: int, j: int|
            0 <= i < identities(allocations@).len() && 0 <= j < identities(allocations@).len() && i != j implies identities(
            allocations@,
        )[i] != identities(allocations@)[j] by {
            if i < j {
                assert(allocations@[i].0 != allocations@[j].0);
            } else {
                assert(allocations@[j].0 != allocations@[i].0);
            }
        }
    }
    true
}

fn stands_before(left: AllocationId, right: AllocationId) -> (result: bool)
    ensures
        result == precedes(left, right),
{
    if left.function.0 != right.function.0 {
        return left.function.0 < right.function.0;
    }
    if left.block.0 != right.block.0 {
        return left.block.0 < right.block.0;
    }
    left.operation < right.operation
}

pub open spec fn bits_text(bits: Seq<bool>, count: nat) -> Seq<char>
    decreases count,
{
    if count == 0 {
        seq![]
    } else {
        bits_text(bits, (count - 1) as nat).push(
            if bits[count - 1] {
                '1'
            } else {
                '0'
            },
        )
    }
}

/// The line on a function.
pub open spec fn summary_line(summary: SummaryView, index: nat) -> Seq<char> {
    "fn"@ + decimal(index) + (if summary.conservative {
        " conservative "@
    } else {
        " proven "@
    }) + bits_text(summary.parameter_escapes, summary.parameter_escapes.len()) + "\n"@
}

/// The lines on the first `count` functions.
pub open spec fn summary_lines(summaries: Seq<FunctionSummary>, count: nat) -> Seq<char>
    decreases count,
{
    if count == 0 {
        seq![]
    } else {
        summary_lines(summaries, (count - 1) as nat) + summary_line(summaries[count - 1]@, (count - 1) as nat)
    }
}

/// The line on an allocation.
pub open spec fn allocation_line(entry: (AllocationId, AllocationClass)) -> Seq<char> {
    entry.0.function.text() + " "@ + entry.0.block.text() + " op"@ + decimal(entry.0.operation as nat) + (match entry.1 {
        AllocationClass::Scoped => " scoped\n"@,
        AllocationClass::Heap => " heap\n"@,
    })
}

/// The lines on the first `count` allocations.
pub open spec fn allocation_lines(allocations: Seq<(AllocationId, AllocationClass)>, count: nat) -> Seq<char>
    decreases count,
{
    if count == 0 {
        seq![]
    } else {
        allocation_lines(allocations, (count - 1) as nat) + allocation_line(allocations[count - 1])
    }
}

impl AllocationPlan {
    /// The lifetime class recorded for one exact struct construction. The entries are kept in the
    /// order of their identities, so that a search by halves finds it.
    pub fn allocation_class(&self, id: AllocationId) -> (result: Option<AllocationClass>)
        requires
            ascending(identities(self.allocations@)),
        ensures
            match result {
                Some(class) => exists|i: int| 0 <= i < self.allocations@.len() && #[trigger] self.allocations@[i] == (id, class),
                None => !identities(self.allocations@).contains(id),
            },
    {
        let mut low: usize = 0;
        let mut high: usize = self.allocations.len();
        while low < high
            invariant
                low <= high <= self.allocations@.len(),
                ascending(identities(self.allocations@)),
                forall|i: int| 0 <= i < low ==> precedes((#[trigger] self.allocations@[i]).0, id),
                forall|i: int| high <= i < self.allocations@.len() ==> precedes(id, (#[trigger] self.allocations@[i]).0),
            decreases high - low,
        {
            let middle: usize = low + (high - low) / 2;
            let (found, class) = self.allocations[middle];
            if found == id {
                assert(self.allocations@[middle as int] == (id, class));
                return Some(class);
            }
            proof {
                assert forall|i: int| 0 <= i < middle implies precedes((#[trigger] self.allocations@[i]).0, found) by {
                    assert(precedes(identities(self.allocations@)[i], identities(self.allocations@)[middle as int]));
                }
                assert forall|i: int| middle < i < self.allocations@.len() implies precedes(
                    found,
                    (#[trigger] self.allocations@[i]).0,
                ) by {
                    assert(precedes(identities(self.allocations@)[middle as int], identities(self.allocations@)[i]));
                }
            }
            if stands_before(found, id) {
                low = middle + 1;
            } else {
                high = middle;
            }
        }
        proof {
            if identities(self.allocations@).contains(id) {
                let i = choose|i: int| 0 <= i < identities(self.allocations@).len() && identities(self.allocations@)[i] == id;
                assert(self.allocations@[i].0 == id);
            }
        }
        None
    }

    /// Whether this function owns an invocation-wide scoped-arena mark.
    pub fn function_has_scoped(&self, id: FunctionId) -> (result: bool)
        ensures
            result == (id.0 < self.has_scoped@.len() && self.has_scoped@[id.0 as int]),
    {
        id.0 < self.has_scoped.len() && self.has_scoped[id.0]
    }

    /// Stable text form.
    pub fn render(&self) -> (result: String)
        ensures
            result@ == summary_lines(self.summaries@, self.summaries@.len()) + allocation_lines(
                self.allocations@,
                self.allocations@.len(),
            ),
    {
        let mut output = String::new();
        let mut index: usize = 0;
        while index < self.summaries.len()
            invariant
                index <= self.summaries@.len(),
                output@ == summary_lines(self.summaries@, index as nat),
            decreases self.summaries@.len() - index,
        {
            let summary = &self.summaries[index];
            let mut line = "fn".to_owned();
            push_decimal(&mut line, index);
            line.append(
                if summary.conservative {
                    " conservative "
                } else {
                    " proven "
                },
            );
            let ghost start = line@;
            let mut bit: usize = 0;
            while bit < summary.parameter_escapes.len()
                invariant
                    bit <= summary.parameter_escapes@.len(),
                    line@ == start + bits_text(summary.parameter_escapes@, bit as nat),
                decreases summary.parameter_escapes@.len() - bit,
            {
                if summary.parameter_escapes[bit] {
                    line.push('1');
                } else {
                    line.push('0');
                }
                bit = bit + 1;
                assert(line@ =~= start + bits_text(summary.parameter_escapes@, bit as nat));
            }
            line.append("\n");
            assert(line@ == summary_line(summary@, index as nat));
            output.append(line.as_str());
            index = index + 1;
        }
        let ghost start = output@;
        let mut entry: usize = 0;
        while entry < self.allocations.len()
            invariant
                entry <= self.allocations@.len(),
                output@ == start + allocation_lines(self.allocations@, entry as nat),
            decreases self.allocations@.len() - entry,
        {
            let (id, class) = self.allocations[entry];
            let mut line = id.function.to_string();
            line.append(" ");
            line.append(id.block.to_string().as_str());
            line.append(" op");
            push_decimal(&mut line, id.operation);
            line.append(
                match class {
                    AllocationClass::Scoped => " scoped\n",
                    AllocationClass::Heap => " heap\n",
                },
            );
            assert(line@ == allocation_line(self.allocations@[entry as int]));
            output.append(line.as_str());
            entry = entry + 1;
            assert(output@ =~= start + allocation_lines(self.allocations@, entry as nat));
        }
        output
    }

    /// Reports the first thing that is wrong with the plan.
    pub fn validate(&self, program: &Program) -> (result: Result<(), EscapeError>)
        ensures
            escape_agrees(result, plan_check(self, program)),
    {
        if self.summaries.len() != program.functions.len() || self.has_scoped.len() != program.functions.len() {
            return Err(error(None, None, None, "function plan does not cover every function"));
        }
        let mut function: usize = 0;
        while function < program.functions.len()
            invariant
                function <= program.functions@.len() == self.summaries@.len(),
                self.has_scoped@.len() == program.functions@.len(),
                wrong_arity(self, program, 0) == wrong_arity(self, program, function as int),
            decreases program.functions@.len() - function,
        {
            if self.summaries[function].parameter_escapes.len() != program.functions[function].parameters.len() {
                return Err(
                    error(Some(FunctionId(function)), None, None, "parameter summary has the wrong arity"),
                );
            }
            function = function + 1;
        }
        if !allocations_are_sites(&self.allocations, program) {
            return Err(
                error(None, None, None, "allocation plan has duplicate, missing, or invalid entries"),
            );
        }
        let mut function: usize = 0;
        while function < program.functions.len()
            invariant
                function <= program.functions@.len() == self.summaries@.len(),
                self.has_scoped@.len() == program.functions@.len(),
                wrong_arity(self, program, 0) is None,
                lists_sites(self.allocations@, program),
                wrong_scope(self, program, 0) == wrong_scope(self, program, function as int),
            decreases program.functions@.len() - function,
        {
            if any_scoped_in(&self.allocations, function) != self.has_scoped[function] {
                return Err(
                    error(
                        Some(FunctionId(function)),
                        None,
                        None,
                        "scoped-allocation index disagrees with allocation entries",
                    ),
                );
            }
            function = function + 1;
        }
        Ok(())
    }
}

/// What has been found out of a function agrees with its summary and its allocations.
spec fn is_analysed(
    p: &Program,
    function: int,
    known: Seq<FunctionSummary>,
    classes: Seq<Vec<(AllocationId, AllocationClass)>>,
) -> bool {
    &&& known[function]@ == summary_of(p, function, known_views(known))
    &&& classes[function]@ == classified(p, function, known_views(known))
}

proof fn lemma_still_analysed(
    p: &Program,
    function: int,
    before: Seq<FunctionSummary>,
    known: Seq<FunctionSummary>,
    before_classes: Seq<Vec<(AllocationId, AllocationClass)>>,
    classes: Seq<Vec<(AllocationId, AllocationClass)>>,
)
    requires
        0 <= function < before.len() == known.len(),
        before.len() == p.functions@.len(),
        valid(p),
        is_analysed(p, function, before, before_classes),
        known[function] == before[function],
        classes[function] == before_classes[function],
        resolved(p, function) ==> forall|callee: int| #[trigger]
            calls(p, function, callee) ==> known[callee] == before[callee],
    ensures
        is_analysed(p, function, known, classes),
{
    if resolved(p, function) {
        assert forall|callee: int| #[trigger] calls(p, function, callee) implies known_views(before)[callee]
            == known_views(known)[callee] by {
            lemma_callee(p, function, callee);
        }
    }
    lemma_same_summary(p, function, known_views(before), known_views(known));
}

fn reach_tables(p: &Program) -> (result: Vec<Vec<bool>>)
    requires
        valid(p),
    ensures
        result@.len() == p.functions@.len(),
        forall|i: int| 0 <= i < result@.len() ==> is_reach_table(&p.functions@[i], (#[trigger] result@[i])@),
{
    let mut tables: Vec<Vec<bool>> = Vec::new();
    let mut index: usize = 0;
    while index < p.functions.len()
        invariant
            valid(p),
            index <= p.functions@.len(),
            tables@.len() == index,
            forall|i: int| 0 <= i < tables@.len() ==> is_reach_table(&p.functions@[i], (#[trigger] tables@[i])@),
        decreases p.functions@.len() - index,
    {
        tables.push(reachable_blocks(p, index));
        index = index + 1;
    }
    tables
}

/// What is known of every function of a valid program.
fn analyse_functions(p: &Program) -> (result: (Vec<FunctionSummary>, Vec<Vec<(AllocationId, AllocationClass)>>))
    requires
        valid(p),
    ensures
        result.0@.len() == p.functions@.len(),
        result.1@.len() == p.functions@.len(),
        forall|i: int| 0 <= i < p.functions@.len() ==> #[trigger] is_analysed(p, i, result.0@, result.1@),
{
    let count = p.functions.len();
    let carrying = carrying_types(p);
    let retaining = retaining_types(p, &carrying);
    let reach = reach_tables(p);
    let mut known: Vec<FunctionSummary> = Vec::new();
    let mut classes: Vec<Vec<(AllocationId, AllocationClass)>> = Vec::new();
    while known.len() < count
        invariant
            known@.len() == classes@.len() <= count,
        decreases count - known@.len(),
    {
        known.push(FunctionSummary { parameter_escapes: Vec::new(), conservative: true });
        classes.push(Vec::new());
    }
    let mut done = cleared(count);
    let ghost mut level: nat = 0;
    loop
        invariant
            valid(p),
            count == p.functions@.len() == known@.len() == classes@.len() == done@.len(),
            is_carrying_table(p, carrying@),
            is_retention_table(p, retaining@),
            reach@.len() == count,
            forall|i: int| 0 <= i < reach@.len() ==> is_reach_table(&p.functions@[i], (#[trigger] reach@[i])@),
            forall|i: int| 0 <= i < done@.len() && #[trigger] done@[i] ==> resolved_within(p, i, level),
            forall|i: int| 0 <= i < done@.len() && #[trigger] done@[i] ==> is_analysed(p, i, known@, classes@),
            forall|i: int, callee: int|
                0 <= i < done@.len() && done@[i] && #[trigger] calls(p, i, callee) ==> done@[callee],
        ensures
            forall|i: int| 0 <= i < done@.len() ==> #[trigger] done@[i] == resolved(p, i),
        decreases room(done@),
    {
        let ghost before = done@;
        let mut changed = false;
        let mut index: usize = 0;
        while index < count
            invariant
                valid(p),
                count == p.functions@.len() == known@.len() == classes@.len() == done@.len(),
                is_carrying_table(p, carrying@),
                is_retention_table(p, retaining@),
                reach@.len() == count,
                forall|i: int| 0 <= i < reach@.len() ==> is_reach_table(&p.functions@[i], (#[trigger] reach@[i])@),
                index <= count,
                room(done@) <= room(before),
                changed ==> room(done@) < room(before),
                forall|i: int| 0 <= i < done@.len() && #[trigger] done@[i] ==> resolved_within(p, i, level),
                forall|i: int| 0 <= i < done@.len() && #[trigger] done@[i] ==> is_analysed(p, i, known@, classes@),
                forall|i: int, callee: int|
                    0 <= i < done@.len() && done@[i] && #[trigger] calls(p, i, callee) ==> done@[callee],
                !changed ==> forall|i: int|
                    0 <= i < index && (forall|callee: int| #[trigger] calls(p, i, callee) ==> done@[callee])
                        ==> #[trigger] done@[i],
            decreases count - index,
        {
            if !done[index] && callees_done(p, index, &reach[index], &done) {
                proof {
                    assert forall|callee: int| #[trigger] calls(p, index as int, callee) implies resolved_within(
                        p,
                        callee,
                        level,
                    ) by {
                        lemma_callee(p, index as int, callee);
                        assert(done@[callee]);
                    }
                    assert(resolved_within(p, index as int, level + 1));
                    assert forall|i: int| 0 <= i < done@.len() && #[trigger] done@[i] implies resolved_within(
                        p,
                        i,
                        level + 1,
                    ) by {
                        lemma_resolved_more(p, i, level, level + 1);
                    }
                    level = level + 1;
                }
                let (summary, found) = analyse_function(p, index, &known, &reach[index], &carrying, &retaining);
                let ghost old_known = known@;
                let ghost old_classes = classes@;
                known.set(index, summary);
                classes.set(index, found);
                proof {
                    assert forall|callee: int| #[trigger] calls(p, index as int, callee) implies known_views(old_known)[callee]
                        == known_views(known@)[callee] by {
                        lemma_callee(p, index as int, callee);
                        assert(done@[callee]);
                    }
                    lemma_same_summary(p, index as int, known_views(old_known), known_views(known@));
                    assert(is_analysed(p, index as int, known@, classes@));
                    assert forall|i: int| 0 <= i < done@.len() && #[trigger] done@[i] implies is_analysed(
                        p,
                        i,
                        known@,
                        classes@,
                    ) by {
                        assert forall|callee: int| #[trigger] calls(p, i, callee) implies known@[callee]
                            == old_known[callee] by {
                            lemma_callee(p, i, callee);
                            assert(done@[callee]);
                        }
                        lemma_still_analysed(p, i, old_known, known@, old_classes, classes@);
                    }
                }
                let ghost old_done = done@;
                mark(&mut done, index, &mut changed);
                assert forall|i: int, callee: int|
                    0 <= i < done@.len() && done@[i] && #[trigger] calls(p, i, callee) implies done@[callee] by {
                    lemma_callee(p, i, callee);
                    assert(old_done[callee]);
                }
            }
            index = index + 1;
        }
        if !changed {
            proof {
                assert forall|i: int| 0 <= i < done@.len() implies #[trigger] done@[i] == resolved(p, i) by {
                    if resolved(p, i) {
                        let depth = choose|depth: nat| resolved_within(p, i, depth);
                        lemma_resolved_done(p, done@, i, depth);
                    }
                }
            }
            break;
        }
    }
    let mut index: usize = 0;
    while index < count
        invariant
            valid(p),
            count == p.functions@.len() == known@.len() == classes@.len() == done@.len(),
            is_carrying_table(p, carrying@),
            index <= count,
            forall|i: int| 0 <= i < done@.len() ==> #[trigger] done@[i] == resolved(p, i),
            forall|i: int|
                0 <= i < done@.len() && (done@[i] || i < index) ==> #[trigger] is_analysed(p, i, known@, classes@),
            forall|i: int, callee: int|
                0 <= i < done@.len() && done@[i] && #[trigger] calls(p, i, callee) ==> done@[callee],
        decreases count - index,
    {
        if !done[index] {
            let (summary, found) = worst_case(p, index, &carrying);
            let ghost old_known = known@;
            let ghost old_classes = classes@;
            known.set(index, summary);
            classes.set(index, found);
            proof {
                assert(is_analysed(p, index as int, known@, classes@));
                assert forall|i: int|
                    0 <= i < done@.len() && (done@[i] || i < index + 1) implies #[trigger] is_analysed(
                    p,
                    i,
                    known@,
                    classes@,
                ) by {
                    if i != index {
                        assert(is_analysed(p, i, old_known, old_classes));
                        if resolved(p, i) {
                            assert(done@[i]);
                            assert forall|callee: int| #[trigger] calls(p, i, callee) implies known@[callee]
                                == old_known[callee] by {
                                lemma_callee(p, i, callee);
                                assert(done@[callee]);
                            }
                        }
                        lemma_still_analysed(p, i, old_known, known@, old_classes, classes@);
                    }
                }
            }
        }
        index = index + 1;
    }
    (known, classes)
}

/// The lifetimes of all allocations of a program, or what is wrong with the program.
pub fn analyze(program: &Program) -> (result: Result<AllocationPlan, EscapeError>)
    ensures
        match program_check(program) {
            Ok(_) => result is Ok && is_plan(program, &result->Ok_0),
            Err(found) => result is Err && result->Err_0@ == found,
        },
{
    if let Err(found) = program.validate() {
        return Err(
            EscapeError {
                function: found.function,
                block: found.block,
                site: found.site,
                message: found.message,
            },
        );
    }
    proof {
        reveal(valid);
    }
    let (summaries, classes) = analyse_functions(program);
    let ghost views = known_views(summaries@);
    let mut allocations: Vec<(AllocationId, AllocationClass)> = Vec::new();
    let mut function: usize = 0;
    while function < program.functions.len()
        invariant
            function <= program.functions@.len(),
            summaries@.len() == classes@.len() == program.functions@.len(),
            views == known_views(summaries@),
            forall|i: int| 0 <= i < program.functions@.len() ==> #[trigger] is_analysed(program, i, summaries@, classes@),
            allocations@ == planned(program, views, function as nat),
        decreases program.functions@.len() - function,
    {
        let found = &classes[function];
        assert(is_analysed(program, function as int, summaries@, classes@));
        let ghost before = allocations@;
        let mut index: usize = 0;
        while index < found.len()
            invariant
                index <= found@.len(),
                allocations@ == before + found@.take(index as int),
            decreases found@.len() - index,
        {
            allocations.push(found[index]);
            index = index + 1;
            assert(allocations@ =~= before + found@.take(index as int));
        }
        assert(found@.take(index as int) =~= found@);
        function = function + 1;
    }
    let mut has_scoped: Vec<bool> = Vec::new();
    let mut function: usize = 0;
    while function < program.functions.len()
        invariant
            function <= program.functions@.len(),
            has_scoped@ == Seq::new(function as nat, |i: int| any_scoped(allocations@, i)),
        decreases program.functions@.len() - function,
    {
        has_scoped.push(any_scoped_in(&allocations, function));
        function = function + 1;
        assert(has_scoped@ =~= Seq::new(function as nat, |i: int| any_scoped(allocations@, i)));
    }
    let plan = AllocationPlan { summaries, allocations, has_scoped };
    proof {
        assert forall|i: int| 0 <= i < views.len() implies #[trigger] views[i] == summary_of(program, i, views) by {
            assert(is_analysed(program, i, summaries@, classes@));
        }
        law_plan_is_valid(program, &plan);
    }
    plan.validate(program)?;
    Ok(plan)
}

proof fn lemma_planned(p: &Program, summaries: Seq<SummaryView>, count: nat)
    requires
        count <= p.functions.len(),
    ensures
        forall|i: int|
            0 <= i < planned(p, summaries, count).len() ==> {
                let id = (#[trigger] planned(p, summaries, count)[i]).0;
                is_site(p, id) && id.function.0 < count
            },
        forall|id: AllocationId|
            is_site(p, id) && id.function.0 < count ==> #[trigger] identities(planned(p, summaries, count)).contains(id),
        ascending(identities(planned(p, summaries, count))),
    decreases count,
{
    if count > 0 {
        lemma_planned(p, summaries, (count - 1) as nat);
        let function = count - 1;
        let blocks = p.functions@[function].blocks;
        lemma_function_allocations(p, function, blocks.len() as nat);
        let sites = function_allocations(p, function, blocks@.len());
        let before = planned(p, summaries, (count - 1) as nat);
        let here = classified(p, function, summaries);
        let now = planned(p, summaries, count);
        assert(now == before + here);
        assert forall|i: int| 0 <= i < now.len() implies {
            let id = (#[trigger] now[i]).0;
            is_site(p, id) && id.function.0 < count
        } by {
            if i < before.len() {
                assert(now[i] == before[i]);
            } else {
                assert(now[i].0 == sites[i - before.len()]);
            }
        }
        assert forall|id: AllocationId| is_site(p, id) && id.function.0 < count implies #[trigger] identities(now).contains(
            id,
        ) by {
            if id.function.0 < count - 1 {
                assert(identities(before).contains(id));
                let i = choose|i: int| 0 <= i < identities(before).len() && identities(before)[i] == id;
                assert(now[i] == before[i]);
                assert(identities(now)[i] == id);
            } else {
                assert(sites.contains(id));
                let i = choose|i: int| 0 <= i < sites.len() && sites[i] == id;
                assert(now[before.len() + i].0 == id);
                assert(identities(now)[before.len() + i] == id);
            }
        }
        assert forall|i: int, j: int| 0 <= i < j < identities(now).len() implies precedes(
            #[trigger] identities(now)[i],
            #[trigger] identities(now)[j],
        ) by {
            if j < before.len() {
                assert(identities(now)[i] == identities(before)[i] && identities(now)[j] == identities(before)[j]);
            } else if i < before.len() {
                assert(identities(now)[i] == before[i].0 && identities(now)[j] == sites[j - before.len()]);
            } else {
                assert(identities(now)[i] == sites[i - before.len()] && identities(now)[j] == sites[j
                    - before.len()]);
            }
        }
    }
}

/// The allocations of a plan stand in the order of their identities.
pub proof fn law_plan_is_in_order(p: &Program, plan: &AllocationPlan)
    requires
        is_plan(p, plan),
    ensures
        ascending(identities(plan.allocations@)),
{
    assert(p.functions@.len() == p.functions.len());
    lemma_planned(p, known_views(plan.summaries@), p.functions@.len());
}

proof fn lemma_arity(p: &Program, plan: &AllocationPlan, from: int)
    requires
        is_plan(p, plan),
        0 <= from,
    ensures
        wrong_arity(plan, p, from) is None,
        wrong_scope(plan, p, from) is None,
    decreases p.functions@.len() - from,
{
    if from < p.functions@.len() {
        lemma_arity(p, plan, from + 1);
        let views = known_views(plan.summaries@);
        assert(views[from] == summary_of(p, from, views));
    }
}

/// The plan for a program passes validation: it covers every function and parameter, and lists
/// every struct construction of the program once and nothing else.
pub proof fn law_plan_is_valid(p: &Program, plan: &AllocationPlan)
    requires
        is_plan(p, plan),
    ensures
        plan_check(plan, p) is Ok,
{
    let views = known_views(plan.summaries@);
    assert(p.functions@.len() == p.functions.len());
    lemma_planned(p, views, p.functions@.len());
    lemma_arity(p, plan, 0);
    let ids = identities(plan.allocations@);
    assert forall|id: AllocationId| #[trigger] ids.contains(id) == is_site(p, id) by {
        if ids.contains(id) {
            let i = choose|i: int| 0 <= i < ids.len() && ids[i] == id;
            assert(plan.allocations@[i].0 == id);
        }
    }
    assert forall|i: int, j: int| 0 <= i < ids.len() && 0 <= j < ids.len() && i != j implies ids[i] != ids[j] by {
        if i < j {
            assert(precedes(ids[i], ids[j]));
        } else {
            assert(precedes(ids[j], ids[i]));
        }
    }
}

/// There is one plan for a valid program: what is known of the functions without cycles of calls
/// follows from their callees, and what is known of the others does not depend on the rest.
pub proof fn law_plan_is_unique(p: &Program, left: &AllocationPlan, right: &AllocationPlan)
    requires
        valid(p),
        is_plan(p, left),
        is_plan(p, right),
    ensures
        known_views(left.summaries@) == known_views(right.summaries@),
        left.allocations@ == right.allocations@,
        left.has_scoped@ == right.has_scoped@,
{
    let one = known_views(left.summaries@);
    let two = known_views(right.summaries@);
    assert forall|i: int| 0 <= i < one.len() implies one[i] == two[i] by {
        assert(one[i] == summary_of(p, i, one));
        assert(two[i] == summary_of(p, i, two));
        if resolved(p, i) {
            let depth = choose|depth: nat| resolved_within(p, i, depth);
            lemma_unique_summary(p, left, right, i, depth);
        } else {
            lemma_same_summary(p, i, one, two);
        }
    }
    assert(one =~= two);
}

proof fn lemma_unique_summary(p: &Program, left: &AllocationPlan, right: &AllocationPlan, function: int, depth: nat)
    requires
        valid(p),
        is_plan(p, left),
        is_plan(p, right),
        0 <= function < p.functions@.len(),
        resolved_within(p, function, depth),
    ensures
        known_views(left.summaries@)[function] == known_views(right.summaries@)[function],
    decreases depth,
{
    let one = known_views(left.summaries@);
    let two = known_views(right.summaries@);
    assert forall|callee: int| #[trigger] calls(p, function, callee) implies one[callee] == two[callee] by {
        lemma_callee(p, function, callee);
        lemma_unique_summary(p, left, right, callee, (depth - 1) as nat);
    }
    lemma_same_summary(p, function, one, two);
    assert(one[function] == summary_of(p, function, one));
    assert(two[function] == summary_of(p, function, two));
}

} // verus!
