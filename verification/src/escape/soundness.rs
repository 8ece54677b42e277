//! What an allocation plan answers for: an account of what can happen to values, step by step as the program runs, that
//! the plan agrees with and that claims no more than must be claimed.

use crate::escape::{
    AllocationClass, AllocationId, AllocationPlan, Origin, SummaryView, allocation_at, block_successors, calls,
    carries, carries_within, class_of, classified, conservative, escapes, escapes_directly, escapes_within,
    function_allocations, held_types, holds, holds_outside, holds_within, introduces, is_allocation,
    is_carrying_container, is_field_place, is_parameter_origin, is_plan, is_site, is_struct, known_views, leads,
    lemma_function_allocations, lets_escape, live_operation, member_types, moves, operand_carries, operation_at,
    owns, planned, reachable, reached, reads, releases, resolved, resolved_within, retains_within,
    retention_unknown, returns_origin, stores, summary_of, transfers, unknown_operation, yields,
};
use crate::ir::{
    Aggregate, BlockId, DefinitionLayout, FunctionId, LocalId, Operand, OperationKind, PlaceView, Program,
    StructField, Terminator, TerminatorKind, Type, TypeId,
};
use crate::ir::validation::operand_type;
use vstd::prelude::*;

verus! {

/// An account of a program.
pub struct Account {
    /// The blocks of each function that control can come to.
    pub reached: spec_fn(int, BlockId) -> bool,
    /// The types whose values can hold references to structs.
    pub carries: spec_fn(TypeId) -> bool,
    /// The types whose values can keep such references in lists or maps.
    pub keeps: spec_fn(TypeId) -> bool,
    /// The functions in which not everything is followed.
    pub loose: spec_fn(int) -> bool,
    /// What each local can hold.
    pub holds: spec_fn(int, LocalId, Origin) -> bool,
    /// What can be used after the function has ended.
    pub escapes: spec_fn(int, Origin) -> bool,
}

/// A place of a function that control can come to.
pub open spec fn live(p: &Program, a: Account, function: int, block: int, index: int) -> bool {
    &&& 0 <= function < p.functions@.len()
    &&& 0 <= block < p.functions@[function].blocks@.len()
    &&& 0 <= index < p.functions@[function].blocks@[block].operations@.len()
    &&& (a.reached)(function, BlockId(block as usize))
}

/// What an operand can be.
pub open spec fn can_be(a: Account, function: int, operand: Operand, origin: Origin) -> bool {
    operand matches Operand::Copy(place) && (a.holds)(function, place.local, origin)
}

/// Control comes to where a function starts, and from each block to all that its terminator names.
pub open spec fn follows_control(p: &Program, a: Account) -> bool {
    &&& forall|function: int|
        0 <= function < p.functions@.len() && (#[trigger] p.functions@[function]).entry is Some ==> (a.reached)(
            function,
            p.functions@[function].entry->0,
        )
    &&& forall|function: int, block: int|
        0 <= function < p.functions@.len() && 0 <= block < p.functions@[function].blocks@.len() && #[trigger] (a.reached)(
            function,
            BlockId(block as usize),
        ) ==> goes_on(a, function, p.functions@[function].blocks@[block].terminator)
}

/// Where a terminator goes on to.
pub open spec fn goes_on(a: Account, function: int, terminator: Option<Terminator>) -> bool {
    match terminator {
        None => true,
        Some(terminator) => match terminator.kind {
            TerminatorKind::Jump(target) => (a.reached)(function, target),
            TerminatorKind::Branch { then_block, else_block, .. } => (a.reached)(function, then_block) && (a.reached)(
                function,
                else_block,
            ),
            TerminatorKind::Switch { targets, .. } => forall|i: int|
                0 <= i < targets@.len() ==> (a.reached)(function, (#[trigger] targets@[i]).1),
            _ => true,
        },
    }
}

/// A value of a type can hold what a value of one of its parts can; a struct is itself held by reference.
pub open spec fn follows_parts(p: &Program, a: Account, ty: TypeId) -> bool {
    match p.types@[ty.0 as int] {
        Type::Unit => true,
        Type::Primitive(_) => true,
        Type::List(element) => {
            &&& (a.carries)(element) ==> (a.carries)(ty)
            &&& (a.carries)(ty) ==> (a.keeps)(ty)
        },
        Type::Mapping { key, value } => {
            &&& (a.carries)(key) || (a.carries)(value) ==> (a.carries)(ty)
            &&& (a.carries)(ty) ==> (a.keeps)(ty)
        },
        Type::Nominal(definition) => match p.definitions@[definition.0 as int].layout {
            DefinitionLayout::Struct(fields) => {
                &&& (a.carries)(ty)
                &&& forall|i: int| 0 <= i < fields@.len() && (a.keeps)((#[trigger] fields@[i]).ty) ==> (a.keeps)(ty)
            },
            DefinitionLayout::Tuple(fields) => forall|i: int|
                0 <= i < fields@.len() ==> part(a, ty, #[trigger] fields@[i]),
            DefinitionLayout::Union(items) => forall|i: int|
                0 <= i < items@.len() ==> part(a, ty, (#[trigger] items@[i]).payload),
        },
        Type::Union(items) => forall|i: int| 0 <= i < items@.len() ==> part(a, ty, (#[trigger] items@[i]).payload),
    }
}

pub open spec fn part(a: Account, whole: TypeId, one: TypeId) -> bool {
    ((a.carries)(one) ==> (a.carries)(whole)) && ((a.keeps)(one) ==> (a.keeps)(whole))
}

/// What an operation leaves in the local that it writes to.
pub open spec fn follows_values(p: &Program, a: Account, function: int, block: int, index: int) -> bool {
    let f = p.functions@[function];
    match f.blocks@[block].operations@[index].kind {
        OperationKind::Copy { destination, operand } => forall|o: Origin| #[trigger]
            can_be(a, function, operand, o) ==> (a.holds)(function, destination, o),
        OperationKind::Assign { destination, value } => destination.projections@.len() == 0 ==> forall|o: Origin|
            #[trigger] can_be(a, function, value, o) ==> (a.holds)(function, destination.local, o),
        OperationKind::UnionInject { destination, payload, .. } => forall|o: Origin| #[trigger]
            can_be(a, function, payload, o) ==> (a.holds)(function, destination, o),
        OperationKind::UnionPayload { destination, union, .. } => forall|o: Origin| #[trigger]
            can_be(a, function, union, o) ==> (a.holds)(function, destination, o),
        OperationKind::Aggregate { destination, aggregate } => match aggregate {
            Aggregate::Tuple { elements, .. } => forall|i: int, o: Origin|
                0 <= i < elements@.len() && #[trigger] can_be(a, function, elements@[i], o) ==> (a.holds)(
                    function,
                    destination,
                    o,
                ),
            Aggregate::Struct { .. } => (a.holds)(
                function,
                destination,
                Origin::Allocation(
                    AllocationId {
                        function: FunctionId(function as usize),
                        block: BlockId(block as usize),
                        operation: index as usize,
                    },
                ),
            ),
            _ => true,
        },
        OperationKind::Call { destination, .. } => (a.carries)(f.locals@[destination.0 as int].ty) ==> (a.holds)(
            function,
            destination,
            Origin::ExternalHeap,
        ),
        _ => true,
    }
}

/// Whether a place lies in a struct, however deep.
pub open spec fn in_struct(place: PlaceView) -> bool {
    exists|i: int| 0 <= i < place.projections.len() && #[trigger] place.projections[i] is StructField
}

/// What an operation lets out: an argument whose parameter escapes in the function that is called, and what is put
/// into something that is outside already. What a struct holds is out where the struct is.
pub open spec fn follows_escapes(
    p: &Program,
    a: Account,
    summaries: Seq<SummaryView>,
    function: int,
    block: int,
    index: int,
) -> bool {
    match p.functions@[function].blocks@[block].operations@[index].kind {
        OperationKind::Call { function: callee, arguments, .. } => forall|i: int, o: Origin|
            0 <= i < arguments@.len() && (i < summaries[callee.0 as int].parameter_escapes.len()
                ==> summaries[callee.0 as int].parameter_escapes[i]) && #[trigger] can_be(a, function, arguments@[i], o)
                ==> (a.escapes)(function, o),
        OperationKind::Assign { destination, value } => in_struct(destination@) ==> forall|owner: Origin, o: Origin|
            #[trigger] (a.holds)(function, destination.local, owner) && #[trigger] can_be(a, function, value, o) && (
            owner is Parameter || owner is ExternalHeap || (a.escapes)(function, owner)) ==> (a.escapes)(function, o),
        OperationKind::Aggregate { aggregate: Aggregate::Struct { fields, .. }, .. } => (a.escapes)(
            function,
            Origin::Allocation(
                AllocationId {
                    function: FunctionId(function as usize),
                    block: BlockId(block as usize),
                    operation: index as usize,
                },
            ),
        ) ==> forall|i: int, o: Origin|
            0 <= i < fields@.len() && #[trigger] can_be(a, function, fields@[i].1, o) ==> (a.escapes)(function, o),
        _ => true,
    }
}

/// Whether an operand has a type that can hold references.
pub open spec fn can_carry(p: &Program, a: Account, function: int, operand: Operand) -> bool {
    operand_type(p, Some(FunctionId(function as usize)), &p.functions@[function], &operand) matches Ok(ty) && (a.carries)(
        ty,
    )
}

/// Lists and maps of references are not followed.
pub open spec fn follows_loosely(p: &Program, a: Account, function: int, block: int, index: int) -> bool {
    match p.functions@[function].blocks@[block].operations@[index].kind {
        OperationKind::Aggregate { aggregate: Aggregate::List { ty, .. }, .. } => (a.carries)(ty) ==> (a.loose)(function),
        OperationKind::Aggregate { aggregate: Aggregate::Mapping { ty, .. }, .. } => (a.carries)(ty) ==> (a.loose)(
            function,
        ),
        OperationKind::Builtin { receiver, arguments, .. } => {
            &&& can_carry(p, a, function, receiver) ==> (a.loose)(function)
            &&& forall|i: int|
                0 <= i < arguments@.len() && can_carry(p, a, function, #[trigger] arguments@[i]) ==> (a.loose)(function)
        },
        OperationKind::BeginIteration { iterable } => can_carry(p, a, function, iterable) ==> (a.loose)(function),
        OperationKind::EndIteration { iterable } => can_carry(p, a, function, iterable) ==> (a.loose)(function),
        OperationKind::IterationValue { iterable, .. } => can_carry(p, a, function, iterable) ==> (a.loose)(function),
        _ => true,
    }
}

/// What a function starts with, and what it gives back.
pub open spec fn follows_calls(p: &Program, a: Account, function: int) -> bool {
    let f = p.functions@[function];
    &&& forall|i: int|
        0 <= i < f.parameters@.len() && (a.carries)(f.locals@[(#[trigger] f.parameters@[i]).0 as int].ty) ==> (a.holds)(
            function,
            f.parameters@[i],
            Origin::Parameter(i as usize),
        ) && ((a.loose)(function) ==> (a.escapes)(function, Origin::Parameter(i as usize)))
    &&& forall|i: int| 0 <= i < f.locals@.len() && (a.keeps)((#[trigger] f.locals@[i]).ty) ==> (a.loose)(function)
    &&& forall|block: int|
        0 <= block < f.blocks@.len() && #[trigger] (a.reached)(function, BlockId(block as usize)) ==> (
        f.blocks@[block].terminator matches Some(terminator) ==> (terminator.kind matches TerminatorKind::Return(value)
            ==> forall|o: Origin| #[trigger] can_be(a, function, value, o) ==> (a.escapes)(function, o)))
}

/// An account that leaves nothing out, given what is known of the functions that are called.
pub open spec fn complete(p: &Program, summaries: Seq<SummaryView>, a: Account) -> bool {
    &&& follows_control(p, a)
    &&& forall|ty: TypeId| #[trigger] follows_parts(p, a, ty)
    &&& forall|function: int| 0 <= function < p.functions@.len() ==> #[trigger] follows_calls(p, a, function)
    &&& forall|function: int, block: int, index: int| #[trigger]
        live(p, a, function, block, index) ==> {
            &&& follows_values(p, a, function, block, index)
            &&& follows_escapes(p, a, summaries, function, block, index)
            &&& follows_loosely(p, a, function, block, index)
        }
}

/// The account that the plan of a program goes by.
pub open spec fn account_of(p: &Program, summaries: Seq<SummaryView>) -> Account {
    Account {
        reached: |function: int, block: BlockId| reachable(&p.functions@[function], block.0 as int),
        carries: |ty: TypeId| carries(p, ty),
        keeps: |ty: TypeId| retention_unknown(p, ty),
        loose: |function: int| conservative(p, function),
        holds: |function: int, local: LocalId, origin: Origin| holds(p, function, local, origin),
        escapes: |function: int, origin: Origin| escapes(p, function, summaries, origin),
    }
}

/// Whether a plan agrees with an account: what escapes from a function is said to escape to its callers, and a struct is
/// let go of with the function that built it only where it cannot be used any more.
pub open spec fn agrees(p: &Program, plan: &AllocationPlan, a: Account) -> bool {
    &&& plan.summaries@.len() == p.functions@.len()
    &&& forall|function: int, i: int|
        0 <= function < p.functions@.len() && 0 <= i < p.functions@[function].parameters@.len() && #[trigger] (a.escapes)(
            function,
            Origin::Parameter(i as usize),
        ) ==> i < plan.summaries@[function].parameter_escapes@.len() && plan.summaries@[function].parameter_escapes@[i]
    &&& forall|function: int|
        0 <= function < p.functions@.len() && #[trigger] (a.loose)(function) ==> plan.summaries@[function].conservative
    &&& forall|k: int|
        0 <= k < plan.allocations@.len() && (#[trigger] plan.allocations@[k]).1 == AllocationClass::Scoped ==> {
            let id = plan.allocations@[k].0;
            !(a.escapes)(id.function.0 as int, Origin::Allocation(id)) && !(a.loose)(id.function.0 as int)
        }
    &&& forall|function: int, block: int, index: int|
        0 <= function < p.functions@.len() && 0 <= block < p.functions@[function].blocks@.len() && 0 <= index
            < p.functions@[function].blocks@[block].operations@.len() && is_allocation(
            #[trigger] operation_at(&p.functions@[function], block, index),
        ) ==> exists|k: int|
            0 <= k < plan.allocations@.len() && (#[trigger] plan.allocations@[k]).0 == allocation_at(
                function,
                block,
                index,
            )
}

proof fn lemma_control(p: &Program, summaries: Seq<SummaryView>)
    ensures
        follows_control(p, account_of(p, summaries)),
{
    let a = account_of(p, summaries);
    assert forall|function: int|
        0 <= function < p.functions@.len() && (#[trigger] p.functions@[function]).entry is Some implies (a.reached)(
        function,
        p.functions@[function].entry->0,
    ) by {
        assert(reached(&p.functions@[function], (p.functions@[function].entry->0).0 as int, 0));
    }
    assert forall|function: int, block: int|
        0 <= function < p.functions@.len() && 0 <= block < p.functions@[function].blocks@.len() && #[trigger] (a.reached)(
            function,
            BlockId(block as usize),
        ) implies goes_on(a, function, p.functions@[function].blocks@[block].terminator) by {
        let f = &p.functions@[function];
        assert(p.functions@[function].blocks.len() == p.functions@[function].blocks@.len());
        assert((block as usize) as int == block);
        let steps = choose|steps: nat| reached(f, block, steps);
        let next = block_successors(f, block);
        assert forall|i: int| 0 <= i < next.len() implies reachable(f, (#[trigger] next[i]).0 as int) by {
            assert(leads(f, block, next[i].0 as int));
            assert(reached(f, next[i].0 as int, (steps + 1) as nat));
        }
        if let Some(terminator) = f.blocks@[block].terminator {
            match terminator.kind {
                TerminatorKind::Jump(target) => {
                    assert(next[0] == target);
                },
                TerminatorKind::Branch { then_block, else_block, .. } => {
                    assert(next[0] == then_block && next[1] == else_block);
                },
                TerminatorKind::Switch { targets, .. } => {
                    assert forall|i: int| 0 <= i < targets@.len() implies (a.reached)(
                        function,
                        (#[trigger] targets@[i]).1,
                    ) by {
                        assert(next[i] == targets@[i].1);
                    }
                },
                _ => {},
            }
        }
    }
}

proof fn lemma_held(p: &Program, ty: TypeId, i: int)
    requires
        0 <= i < held_types(p, ty).len(),
        carries(p, held_types(p, ty)[i]),
    ensures
        carries(p, ty),
{
    let depth = choose|depth: nat| carries_within(p, held_types(p, ty)[i], depth);
    assert(carries_within(p, ty, (depth + 1) as nat));
}

proof fn lemma_kept(p: &Program, ty: TypeId, i: int)
    requires
        0 <= i < member_types(p, ty).len(),
        retention_unknown(p, member_types(p, ty)[i]),
    ensures
        retention_unknown(p, ty),
{
    let depth = choose|depth: nat| retains_within(p, member_types(p, ty)[i], depth);
    assert(retains_within(p, ty, (depth + 1) as nat));
}

proof fn lemma_parts(p: &Program, summaries: Seq<SummaryView>, ty: TypeId)
    ensures
        follows_parts(p, account_of(p, summaries), ty),
{
    let a = account_of(p, summaries);
    assert forall|i: int| 0 <= i < held_types(p, ty).len() && carries(p, #[trigger] held_types(p, ty)[i]) implies carries(
        p,
        ty,
    ) by {
        lemma_held(p, ty, i);
    }
    assert forall|i: int| 0 <= i < member_types(p, ty).len() && retention_unknown(p, #[trigger] member_types(p, ty)[i])
        implies retention_unknown(p, ty) by {
        lemma_kept(p, ty, i);
    }
    if is_carrying_container(p, ty) {
        assert(retains_within(p, ty, 0));
    }
    if is_struct(p, ty) {
        assert(carries_within(p, ty, 0));
    }
    let held = held_types(p, ty);
    let members = member_types(p, ty);
    match p.types@[ty.0 as int] {
        Type::List(element) => {
            assert(held[0] == element);
        },
        Type::Mapping { key, value } => {
            assert(held[0] == key && held[1] == value);
        },
        Type::Nominal(definition) => match p.definitions@[definition.0 as int].layout {
            DefinitionLayout::Struct(fields) => {
                assert forall|i: int| 0 <= i < fields@.len() && (a.keeps)((#[trigger] fields@[i]).ty) implies (a.keeps)(
                    ty,
                ) by {
                    assert(members[i] == fields@[i].ty);
                }
            },
            DefinitionLayout::Tuple(fields) => {
                assert forall|i: int| 0 <= i < fields@.len() implies part(a, ty, #[trigger] fields@[i]) by {
                    assert(members[i] == fields@[i] && held[i] == fields@[i]);
                }
            },
            DefinitionLayout::Union(items) => {
                assert forall|i: int| 0 <= i < items@.len() implies part(a, ty, (#[trigger] items@[i]).payload) by {
                    assert(members[i] == items@[i].payload && held[i] == items@[i].payload);
                }
            },
        },
        Type::Union(items) => {
            assert forall|i: int| 0 <= i < items@.len() implies part(a, ty, (#[trigger] items@[i]).payload) by {
                assert(members[i] == items@[i].payload && held[i] == items@[i].payload);
            }
        },
        _ => {},
    }
}

proof fn lemma_moved(p: &Program, function: int, block: int, index: int, from: LocalId, to: LocalId, o: Origin)
    requires
        live_operation(&p.functions@[function], block, index),
        transfers(operation_at(&p.functions@[function], block, index), from, to),
        holds(p, function, from, o),
    ensures
        holds(p, function, to, o),
{
    let steps = choose|steps: nat| holds_within(p, function, from, o, steps);
    assert(moves(&p.functions@[function], from, to));
    assert(holds_within(p, function, to, o, (steps + 1) as nat));
}

proof fn lemma_live(p: &Program, summaries: Seq<SummaryView>, function: int, block: int, index: int)
    requires
        live(p, account_of(p, summaries), function, block, index),
    ensures
        live_operation(&p.functions@[function], block, index),
        (function as usize) as int == function,
        (block as usize) as int == block,
        (index as usize) as int == index,
{
    assert(p.functions.len() == p.functions@.len());
    assert(p.functions@[function].blocks.len() == p.functions@[function].blocks@.len());
    assert(p.functions@[function].blocks@[block].operations.len() == p.functions@[function].blocks@[block].operations@.len());
}

proof fn lemma_values(p: &Program, summaries: Seq<SummaryView>, function: int, block: int, index: int)
    requires
        live(p, account_of(p, summaries), function, block, index),
    ensures
        follows_values(p, account_of(p, summaries), function, block, index),
{
    let a = account_of(p, summaries);
    lemma_live(p, summaries, function, block, index);
    let f = &p.functions@[function];
    let kind = operation_at(f, block, index);
    assert forall|from: LocalId, to: LocalId, o: Origin| #[trigger] transfers(kind, from, to) && #[trigger] holds(
        p,
        function,
        from,
        o,
    ) implies holds(p, function, to, o) by {
        lemma_moved(p, function, block, index, from, to, o);
    }
    match kind {
        OperationKind::Copy { destination, operand } => {
            if let Operand::Copy(place) = operand {
                assert(transfers(kind, place.local, destination));
            }
        },
        OperationKind::Assign { destination, value } => {
            if destination.projections@.len() == 0 {
                if let Operand::Copy(place) = value {
                    assert(transfers(kind, place.local, destination.local));
                }
            }
        },
        OperationKind::UnionInject { destination, payload, .. } => {
            if let Operand::Copy(place) = payload {
                assert(transfers(kind, place.local, destination));
            }
        },
        OperationKind::UnionPayload { destination, union, .. } => {
            if let Operand::Copy(place) = union {
                assert(transfers(kind, place.local, destination));
            }
        },
        OperationKind::Aggregate { destination, aggregate } => match aggregate {
            Aggregate::Tuple { elements, .. } => {
                assert forall|i: int, o: Origin|
                    0 <= i < elements@.len() && #[trigger] can_be(a, function, elements@[i], o) implies (a.holds)(
                    function,
                    destination,
                    o,
                ) by {
                    if let Operand::Copy(place) = elements@[i] {
                        assert(reads(elements@[i], place.local));
                        assert(transfers(kind, place.local, destination));
                    }
                }
            },
            Aggregate::Struct { .. } => {
                let origin = Origin::Allocation(allocation_at(function, block, index));
                assert(introduces(p, function, block, index, destination, origin));
                assert(holds_within(p, function, destination, origin, 0));
            },
            _ => {},
        },
        OperationKind::Call { destination, .. } => {
            if carries(p, f.locals@[destination.0 as int].ty) {
                assert(introduces(p, function, block, index, destination, Origin::ExternalHeap));
                assert(holds_within(p, function, destination, Origin::ExternalHeap, 0));
            }
        },
        _ => {},
    }
}

proof fn lemma_out(p: &Program, summaries: Seq<SummaryView>, function: int, o: Origin)
    requires
        escapes_directly(p, function, summaries, o),
    ensures
        escapes(p, function, summaries, o),
{
    assert(escapes_within(p, function, summaries, o, 0));
}

proof fn lemma_owned(p: &Program, summaries: Seq<SummaryView>, function: int, owner: Origin, o: Origin)
    requires
        escapes(p, function, summaries, owner),
        owns(p, function, owner, o),
    ensures
        escapes(p, function, summaries, o),
{
    let steps = choose|steps: nat| escapes_within(p, function, summaries, owner, steps);
    assert(escapes_within(p, function, summaries, o, (steps + 1) as nat));
}

proof fn lemma_escapes(p: &Program, summaries: Seq<SummaryView>, function: int, block: int, index: int)
    requires
        live(p, account_of(p, summaries), function, block, index),
    ensures
        follows_escapes(p, account_of(p, summaries), summaries, function, block, index),
{
    let a = account_of(p, summaries);
    lemma_live(p, summaries, function, block, index);
    let f = &p.functions@[function];
    let kind = operation_at(f, block, index);
    match kind {
        OperationKind::Call { function: callee, arguments, .. } => {
            assert forall|i: int, o: Origin|
                0 <= i < arguments@.len() && (i < summaries[callee.0 as int].parameter_escapes.len()
                    ==> summaries[callee.0 as int].parameter_escapes[i]) && #[trigger] can_be(
                    a,
                    function,
                    arguments@[i],
                    o,
                ) implies (a.escapes)(function, o) by {
                assert(lets_escape(summaries[callee.0 as int], i));
                assert(yields(p, function, arguments@[i], o));
                assert(releases(p, function, summaries, block, index, o));
                lemma_out(p, summaries, function, o);
            }
        },
        OperationKind::Assign { destination, value } => {
            if in_struct(destination@) {
                assert(is_field_place(destination@));
                assert forall|owner: Origin, o: Origin|
                    #[trigger] (a.holds)(function, destination.local, owner) && #[trigger] can_be(a, function, value, o) && (
                    owner is Parameter || owner is ExternalHeap || (a.escapes)(function, owner)) implies (a.escapes)(
                    function,
                    o,
                ) by {
                    assert(yields(p, function, value, o));
                    if (a.escapes)(function, owner) {
                        assert(stores(p, function, block, index, owner, o));
                        assert(owns(p, function, owner, o));
                        lemma_owned(p, summaries, function, owner, o);
                    } else {
                        assert(holds(p, function, destination.local, owner));
                        match owner {
                            Origin::Parameter(position) => {
                                assert(holds(p, function, destination.local, Origin::Parameter(position)));
                            },
                            _ => {},
                        }
                        assert(holds_outside(p, function, destination.local));
                        assert(releases(p, function, summaries, block, index, o));
                        lemma_out(p, summaries, function, o);
                    }
                }
            }
        },
        OperationKind::Aggregate { aggregate: Aggregate::Struct { fields, .. }, .. } => {
            let owner = Origin::Allocation(allocation_at(function, block, index));
            if escapes(p, function, summaries, owner) {
                assert forall|i: int, o: Origin|
                    0 <= i < fields@.len() && #[trigger] can_be(a, function, fields@[i].1, o) implies (a.escapes)(
                    function,
                    o,
                ) by {
                    assert(yields(p, function, fields@[i].1, o));
                    assert(stores(p, function, block, index, owner, o));
                    assert(owns(p, function, owner, o));
                    lemma_owned(p, summaries, function, owner, o);
                }
            }
        },
        _ => {},
    }
}

proof fn lemma_loose(p: &Program, summaries: Seq<SummaryView>, function: int, block: int, index: int)
    requires
        live(p, account_of(p, summaries), function, block, index),
    ensures
        follows_loosely(p, account_of(p, summaries), function, block, index),
{
    lemma_live(p, summaries, function, block, index);
    let a = account_of(p, summaries);
    let f = &p.functions@[function];
    let kind = operation_at(f, block, index);
    assert forall|operand: Operand| #[trigger] can_carry(p, a, function, operand) implies operand_carries(
        p,
        function,
        operand,
    ) by {}
    assert(unknown_operation(p, function, kind) ==> conservative(p, function));
}

proof fn lemma_calls(p: &Program, summaries: Seq<SummaryView>, function: int)
    requires
        0 <= function < p.functions@.len(),
    ensures
        follows_calls(p, account_of(p, summaries), function),
{
    let a = account_of(p, summaries);
    let f = &p.functions@[function];
    assert(p.functions@[function].parameters.len() == p.functions@[function].parameters@.len());
    assert forall|i: int|
        0 <= i < f.parameters@.len() && (a.carries)(f.locals@[(#[trigger] f.parameters@[i]).0 as int].ty) implies (
    a.holds)(function, f.parameters@[i], Origin::Parameter(i as usize)) && ((a.loose)(function) ==> (a.escapes)(
        function,
        Origin::Parameter(i as usize),
    )) by {
        assert((i as usize) as int == i);
        assert(is_parameter_origin(p, f, f.parameters@[i], Origin::Parameter(i as usize)));
        assert(holds_within(p, function, f.parameters@[i], Origin::Parameter(i as usize), 0));
        if conservative(p, function) {
            lemma_out(p, summaries, function, Origin::Parameter(i as usize));
        }
    }
    assert forall|block: int|
        0 <= block < f.blocks@.len() && #[trigger] (a.reached)(function, BlockId(block as usize)) implies (
    f.blocks@[block].terminator matches Some(terminator) ==> (terminator.kind matches TerminatorKind::Return(value)
        ==> forall|o: Origin| #[trigger] can_be(a, function, value, o) ==> (a.escapes)(function, o))) by {
        assert(p.functions@[function].blocks.len() == p.functions@[function].blocks@.len());
        assert((block as usize) as int == block);
        if let Some(terminator) = f.blocks@[block].terminator {
            if let TerminatorKind::Return(value) = terminator.kind {
                assert forall|o: Origin| #[trigger] can_be(a, function, value, o) implies (a.escapes)(function, o) by {
                    assert(returns_origin(p, function, block, o));
                    lemma_out(p, summaries, function, o);
                }
            }
        }
    }
}

proof fn lemma_complete(p: &Program, summaries: Seq<SummaryView>)
    ensures
        complete(p, summaries, account_of(p, summaries)),
{
    let a = account_of(p, summaries);
    lemma_control(p, summaries);
    assert forall|ty: TypeId| #[trigger] follows_parts(p, a, ty) by {
        lemma_parts(p, summaries, ty);
    }
    assert forall|function: int| 0 <= function < p.functions@.len() implies #[trigger] follows_calls(p, a, function) by {
        lemma_calls(p, summaries, function);
    }
    assert forall|function: int, block: int, index: int| #[trigger] live(p, a, function, block, index) implies {
        &&& follows_values(p, a, function, block, index)
        &&& follows_escapes(p, a, summaries, function, block, index)
        &&& follows_loosely(p, a, function, block, index)
    } by {
        lemma_values(p, summaries, function, block, index);
        lemma_escapes(p, summaries, function, block, index);
        lemma_loose(p, summaries, function, block, index);
    }
}

/// What comes from a parameter comes from one that can hold references.
proof fn lemma_parameter(p: &Program, function: int, local: LocalId, position: usize, steps: nat)
    requires
        holds_within(p, function, local, Origin::Parameter(position), steps),
    ensures
        position < p.functions@[function].parameters@.len(),
        carries(
            p,
            p.functions@[function].locals@[p.functions@[function].parameters@[position as int].0 as int].ty,
        ),
    decreases steps,
{
    let f = &p.functions@[function];
    let origin = Origin::Parameter(position);
    if !is_parameter_origin(p, f, local, origin) {
        let from = choose|from: LocalId|
            holds_within(p, function, from, origin, (steps - 1) as nat) && #[trigger] moves(f, from, local);
        lemma_parameter(p, function, from, position, (steps - 1) as nat);
    }
}

proof fn lemma_yields_parameter(p: &Program, function: int, operand: Operand, position: usize)
    requires
        yields(p, function, operand, Origin::Parameter(position)),
    ensures
        position < p.functions@[function].parameters@.len(),
        carries(
            p,
            p.functions@[function].locals@[p.functions@[function].parameters@[position as int].0 as int].ty,
        ),
{
    if let Operand::Copy(place) = operand {
        let steps = choose|steps: nat| holds_within(p, function, place.local, Origin::Parameter(position), steps);
        lemma_parameter(p, function, place.local, position, steps);
    }
}

proof fn lemma_escaping_parameter(p: &Program, summaries: Seq<SummaryView>, function: int, position: usize)
    requires
        escapes(p, function, summaries, Origin::Parameter(position)),
    ensures
        position < p.functions@[function].parameters@.len(),
        carries(
            p,
            p.functions@[function].locals@[p.functions@[function].parameters@[position as int].0 as int].ty,
        ),
{
    let f = &p.functions@[function];
    let origin = Origin::Parameter(position);
    let steps = choose|steps: nat| escapes_within(p, function, summaries, origin, steps);
    if escapes_directly(p, function, summaries, origin) {
        if exists|block: int, index: int| #[trigger]
            live_operation(f, block, index) && releases(p, function, summaries, block, index, origin) {
            let (block, index) = choose|block: int, index: int| #[trigger]
                live_operation(f, block, index) && releases(p, function, summaries, block, index, origin);
            match operation_at(f, block, index) {
                OperationKind::Assign { destination, value } => lemma_yields_parameter(p, function, value, position),
                OperationKind::Call { function: callee, arguments, .. } => {
                    let i = choose|i: int|
                        0 <= i < arguments@.len() && lets_escape(summaries[callee.0 as int], i) && yields(
                            p,
                            function,
                            #[trigger] arguments@[i],
                            origin,
                        );
                    lemma_yields_parameter(p, function, arguments@[i], position);
                },
                _ => {},
            }
        } else if exists|block: int| #[trigger] returns_origin(p, function, block, origin) {
            let block = choose|block: int| #[trigger] returns_origin(p, function, block, origin);
            if let Some(terminator) = f.blocks@[block].terminator {
                if let TerminatorKind::Return(value) = terminator.kind {
                    lemma_yields_parameter(p, function, value, position);
                }
            }
        }
    } else {
        let owner = choose|owner: Origin|
            escapes_within(p, function, summaries, owner, (steps - 1) as nat) && #[trigger] owns(
                p,
                function,
                owner,
                origin,
            );
        let (block, index) = choose|block: int, index: int| #[trigger]
            live_operation(f, block, index) && stores(p, function, block, index, owner, origin);
        match operation_at(f, block, index) {
            OperationKind::Aggregate { aggregate: Aggregate::Struct { fields, .. }, .. } => {
                let i = choose|i: int|
                    0 <= i < fields@.len() && yields(p, function, (#[trigger] fields@[i]).1, origin);
                lemma_yields_parameter(p, function, fields@[i].1, position);
            },
            OperationKind::Assign { destination, value } => lemma_yields_parameter(p, function, value, position),
            _ => {},
        }
    }
}

/// What the plan says of each of the allocations of the first `count` functions.
proof fn lemma_classes(p: &Program, summaries: Seq<SummaryView>, count: nat)
    requires
        count <= p.functions.len(),
    ensures
        forall|k: int|
            0 <= k < planned(p, summaries, count).len() ==> {
                let entry = #[trigger] planned(p, summaries, count)[k];
                &&& is_site(p, entry.0)
                &&& entry.1 == class_of(
                    p,
                    entry.0.function.0 as int,
                    summaries,
                    entry.0.block.0 as int,
                    entry.0.operation as int,
                )
            },
        forall|id: AllocationId|
            is_site(p, id) && id.function.0 < count ==> exists|k: int|
                0 <= k < planned(p, summaries, count).len() && (#[trigger] planned(p, summaries, count)[k]).0 == id,
    decreases count,
{
    if count > 0 {
        lemma_classes(p, summaries, (count - 1) as nat);
        let function = count - 1;
        let blocks = p.functions@[function].blocks;
        lemma_function_allocations(p, function, blocks.len() as nat);
        let sites = function_allocations(p, function, blocks@.len());
        let before = planned(p, summaries, (count - 1) as nat);
        let here = classified(p, function, summaries);
        let now = planned(p, summaries, count);
        assert(now == before + here);
        assert forall|k: int| 0 <= k < now.len() implies {
            let entry = #[trigger] now[k];
            &&& is_site(p, entry.0)
            &&& entry.1 == class_of(
                p,
                entry.0.function.0 as int,
                summaries,
                entry.0.block.0 as int,
                entry.0.operation as int,
            )
        } by {
            if k < before.len() {
                assert(now[k] == before[k]);
            } else {
                assert(now[k] == here[k - before.len()]);
                assert(now[k].0 == sites[k - before.len()]);
            }
        }
        assert forall|id: AllocationId| is_site(p, id) && id.function.0 < count implies exists|k: int|
            0 <= k < now.len() && (#[trigger] now[k]).0 == id by {
            if id.function.0 < count - 1 {
                let k = choose|k: int| 0 <= k < before.len() && (#[trigger] before[k]).0 == id;
                assert(now[k] == before[k]);
            } else {
                assert(sites.contains(id));
                let k = choose|k: int| 0 <= k < sites.len() && sites[k] == id;
                assert(now[before.len() + k].0 == id);
            }
        }
    }
}

/// A plan is sound: there is a complete account of the program that it agrees with. So wherever a live call passes
/// something that may be a struct to a parameter that escapes, the struct is on the heap, and so on for everything that
/// lets a value out.
pub proof fn law_plan_is_sound(p: &Program, plan: &AllocationPlan)
    requires
        is_plan(p, plan),
    ensures
        exists|a: Account| complete(p, known_views(plan.summaries@), a) && #[trigger] agrees(p, plan, a),
{
    let views = known_views(plan.summaries@);
    let a = account_of(p, views);
    lemma_complete(p, views);
    assert(p.functions.len() == p.functions@.len());
    lemma_classes(p, views, p.functions@.len());
    assert forall|function: int, i: int|
        0 <= function < p.functions@.len() && 0 <= i < p.functions@[function].parameters@.len() && #[trigger] (
        a.escapes)(function, Origin::Parameter(i as usize)) implies i
        < plan.summaries@[function].parameter_escapes@.len() && plan.summaries@[function].parameter_escapes@[i] by {
        assert(p.functions@[function].parameters.len() == p.functions@[function].parameters@.len());
        assert((i as usize) as int == i);
        assert(views[function] == summary_of(p, function, views));
        assert(views[function] == plan.summaries@[function]@);
        lemma_escaping_parameter(p, views, function, i as usize);
    }
    assert forall|function: int| 0 <= function < p.functions@.len() && #[trigger] (a.loose)(function) implies
        plan.summaries@[function].conservative by {
        assert(views[function] == summary_of(p, function, views));
        assert(views[function] == plan.summaries@[function]@);
    }
    assert forall|k: int|
        0 <= k < plan.allocations@.len() && (#[trigger] plan.allocations@[k]).1 == AllocationClass::Scoped implies {
        let id = plan.allocations@[k].0;
        !(a.escapes)(id.function.0 as int, Origin::Allocation(id)) && !(a.loose)(id.function.0 as int)
    } by {
        let id = plan.allocations@[k].0;
        assert(plan.allocations@[k] == planned(p, views, p.functions@.len())[k]);
        assert(allocation_at(id.function.0 as int, id.block.0 as int, id.operation as int) == id);
    }
    assert forall|function: int, block: int, index: int|
        0 <= function < p.functions@.len() && 0 <= block < p.functions@[function].blocks@.len() && 0 <= index
            < p.functions@[function].blocks@[block].operations@.len() && is_allocation(
            #[trigger] operation_at(&p.functions@[function], block, index),
        ) implies exists|k: int|
        0 <= k < plan.allocations@.len() && (#[trigger] plan.allocations@[k]).0 == allocation_at(
            function,
            block,
            index,
        ) by {
        assert(p.functions@[function].blocks.len() == p.functions@[function].blocks@.len());
        assert(p.functions@[function].blocks@[block].operations.len()
            == p.functions@[function].blocks@[block].operations@.len());
        assert(is_site(p, allocation_at(function, block, index)));
    }
    assert(agrees(p, plan, a));
}

proof fn lemma_must_reach(p: &Program, summaries: Seq<SummaryView>, a: Account, function: int, block: int, steps: nat)
    requires
        complete(p, summaries, a),
        0 <= function < p.functions@.len(),
        reached(&p.functions@[function], block, steps),
    ensures
        (a.reached)(function, BlockId(block as usize)),
        0 <= block <= usize::MAX,
    decreases steps,
{
    let f = &p.functions@[function];
    if f.entry is Some && f.entry->Some_0.0 == block {
        assert(BlockId(block as usize) == f.entry->0);
    } else {
        let from = choose|from: int|
            0 <= from < f.blocks@.len() && reached(f, from, (steps - 1) as nat) && #[trigger] leads(f, from, block);
        lemma_must_reach(p, summaries, a, function, from, (steps - 1) as nat);
        let next = block_successors(f, from);
        let i = choose|i: int| 0 <= i < next.len() && (#[trigger] next[i]).0 == block;
        assert(BlockId(block as usize) == next[i]);
        assert(goes_on(a, function, f.blocks@[from].terminator));
    }
}

proof fn lemma_must_live(p: &Program, summaries: Seq<SummaryView>, a: Account, function: int, block: int, index: int)
    requires
        complete(p, summaries, a),
        0 <= function < p.functions@.len(),
        live_operation(&p.functions@[function], block, index),
    ensures
        live(p, a, function, block, index),
        follows_values(p, a, function, block, index),
        follows_escapes(p, a, summaries, function, block, index),
        follows_loosely(p, a, function, block, index),
{
    let steps = choose|steps: nat| reached(&p.functions@[function], block, steps);
    lemma_must_reach(p, summaries, a, function, block, steps);
    assert(live(p, a, function, block, index));
}

proof fn lemma_must_carry(p: &Program, summaries: Seq<SummaryView>, a: Account, ty: TypeId, depth: nat)
    requires
        complete(p, summaries, a),
        carries_within(p, ty, depth),
    ensures
        (a.carries)(ty),
    decreases depth,
{
    assert(follows_parts(p, a, ty));
    if !is_struct(p, ty) {
        let held = held_types(p, ty);
        let i = choose|i: int|
            0 <= i < held.len() && carries_within(p, #[trigger] held[i], (depth - 1) as nat);
        lemma_must_carry(p, summaries, a, held[i], (depth - 1) as nat);
        match p.types@[ty.0 as int] {
            Type::Nominal(definition) => match p.definitions@[definition.0 as int].layout {
                DefinitionLayout::Tuple(fields) => {
                    assert(part(a, ty, fields@[i]));
                },
                DefinitionLayout::Union(items) => {
                    assert(held[i] == items@[i].payload);
                    assert(part(a, ty, items@[i].payload));
                },
                _ => {},
            },
            Type::Union(items) => {
                assert(held[i] == items@[i].payload);
                assert(part(a, ty, items@[i].payload));
            },
            _ => {},
        }
    }
}

proof fn lemma_all_carried(p: &Program, summaries: Seq<SummaryView>, a: Account)
    requires
        complete(p, summaries, a),
    ensures
        forall|ty: TypeId| #[trigger] carries(p, ty) ==> (a.carries)(ty),
{
    assert forall|ty: TypeId| #[trigger] carries(p, ty) implies (a.carries)(ty) by {
        let depth = choose|depth: nat| carries_within(p, ty, depth);
        lemma_must_carry(p, summaries, a, ty, depth);
    }
}

proof fn lemma_must_keep(p: &Program, summaries: Seq<SummaryView>, a: Account, ty: TypeId, depth: nat)
    requires
        complete(p, summaries, a),
        retains_within(p, ty, depth),
    ensures
        (a.keeps)(ty),
    decreases depth,
{
    lemma_all_carried(p, summaries, a);
    assert(follows_parts(p, a, ty));
    if !is_carrying_container(p, ty) {
        let members = member_types(p, ty);
        let i = choose|i: int|
            0 <= i < members.len() && retains_within(p, #[trigger] members[i], (depth - 1) as nat);
        lemma_must_keep(p, summaries, a, members[i], (depth - 1) as nat);
        match p.types@[ty.0 as int] {
            Type::Nominal(definition) => match p.definitions@[definition.0 as int].layout {
                DefinitionLayout::Struct(fields) => {
                    assert(members[i] == fields@[i].ty);
                },
                DefinitionLayout::Tuple(fields) => {
                    assert(part(a, ty, fields@[i]));
                },
                DefinitionLayout::Union(items) => {
                    assert(members[i] == items@[i].payload);
                    assert(part(a, ty, items@[i].payload));
                },
            },
            Type::Union(items) => {
                assert(members[i] == items@[i].payload);
                assert(part(a, ty, items@[i].payload));
            },
            _ => {},
        }
    }
}

proof fn lemma_must_be_loose(p: &Program, summaries: Seq<SummaryView>, a: Account, function: int)
    requires
        complete(p, summaries, a),
        0 <= function < p.functions@.len(),
        conservative(p, function),
    ensures
        (a.loose)(function),
{
    let f = &p.functions@[function];
    assert(follows_calls(p, a, function));
    lemma_all_carried(p, summaries, a);
    if exists|i: int| 0 <= i < f.locals@.len() && retention_unknown(p, (#[trigger] f.locals@[i]).ty) {
        let i = choose|i: int| 0 <= i < f.locals@.len() && retention_unknown(p, (#[trigger] f.locals@[i]).ty);
        let depth = choose|depth: nat| retains_within(p, f.locals@[i].ty, depth);
        lemma_must_keep(p, summaries, a, f.locals@[i].ty, depth);
    } else {
        let (block, index) = choose|block: int, index: int| #[trigger]
            live_operation(f, block, index) && unknown_operation(p, function, operation_at(f, block, index));
        lemma_must_live(p, summaries, a, function, block, index);
        assert forall|operand: Operand| #[trigger] operand_carries(p, function, operand) implies can_carry(
            p,
            a,
            function,
            operand,
        ) by {}
        match operation_at(f, block, index) {
            OperationKind::Builtin { receiver, arguments, .. } => {
                if !operand_carries(p, function, receiver) {
                    let i = choose|i: int|
                        0 <= i < arguments@.len() && operand_carries(p, function, #[trigger] arguments@[i]);
                    assert(can_carry(p, a, function, arguments@[i]));
                }
            },
            _ => {},
        }
    }
}

proof fn lemma_must_hold(
    p: &Program,
    summaries: Seq<SummaryView>,
    a: Account,
    function: int,
    local: LocalId,
    o: Origin,
    steps: nat,
)
    requires
        complete(p, summaries, a),
        0 <= function < p.functions@.len(),
        holds_within(p, function, local, o, steps),
    ensures
        (a.holds)(function, local, o),
    decreases steps,
{
    let f = &p.functions@[function];
    assert(follows_calls(p, a, function));
    lemma_all_carried(p, summaries, a);
    if is_parameter_origin(p, f, local, o) {
        match o {
            Origin::Parameter(position) => {
                assert(f.parameters@[position as int] == local);
            },
            _ => {},
        }
    } else if exists|block: int, index: int| #[trigger]
        live_operation(f, block, index) && introduces(p, function, block, index, local, o) {
        let (block, index) = choose|block: int, index: int| #[trigger]
            live_operation(f, block, index) && introduces(p, function, block, index, local, o);
        lemma_must_live(p, summaries, a, function, block, index);
    } else {
        let from = choose|from: LocalId|
            holds_within(p, function, from, o, (steps - 1) as nat) && #[trigger] moves(f, from, local);
        lemma_must_hold(p, summaries, a, function, from, o, (steps - 1) as nat);
        let (block, index) = choose|block: int, index: int| #[trigger]
            live_operation(f, block, index) && transfers(operation_at(f, block, index), from, local);
        lemma_must_live(p, summaries, a, function, block, index);
        match operation_at(f, block, index) {
            OperationKind::Copy { destination, operand } => {
                assert(can_be(a, function, operand, o));
            },
            OperationKind::Assign { destination, value } => {
                assert(can_be(a, function, value, o));
            },
            OperationKind::Aggregate { destination, aggregate: Aggregate::Tuple { elements, .. } } => {
                let i = choose|i: int| 0 <= i < elements@.len() && reads(#[trigger] elements@[i], from);
                assert(can_be(a, function, elements@[i], o));
            },
            OperationKind::UnionInject { destination, payload, .. } => {
                assert(can_be(a, function, payload, o));
            },
            OperationKind::UnionPayload { destination, union, .. } => {
                assert(can_be(a, function, union, o));
            },
            _ => {},
        }
    }
}

proof fn lemma_all_held(p: &Program, summaries: Seq<SummaryView>, a: Account, function: int)
    requires
        complete(p, summaries, a),
        0 <= function < p.functions@.len(),
    ensures
        forall|local: LocalId, o: Origin| #[trigger] holds(p, function, local, o) ==> (a.holds)(function, local, o),
        forall|operand: Operand, o: Origin| #[trigger]
            yields(p, function, operand, o) ==> can_be(a, function, operand, o),
{
    assert forall|local: LocalId, o: Origin| #[trigger] holds(p, function, local, o) implies (a.holds)(
        function,
        local,
        o,
    ) by {
        let steps = choose|steps: nat| holds_within(p, function, local, o, steps);
        lemma_must_hold(p, summaries, a, function, local, o, steps);
    }
}

proof fn lemma_must_escape(
    p: &Program,
    summaries: Seq<SummaryView>,
    a: Account,
    function: int,
    o: Origin,
    steps: nat,
)
    requires
        complete(p, summaries, a),
        0 <= function < p.functions@.len(),
        escapes_within(p, function, summaries, o, steps),
    ensures
        (a.escapes)(function, o),
    decreases steps,
{
    let f = &p.functions@[function];
    lemma_all_held(p, summaries, a, function);
    lemma_all_carried(p, summaries, a);
    assert(follows_calls(p, a, function));
    if escapes_directly(p, function, summaries, o) {
        if exists|block: int, index: int| #[trigger]
            live_operation(f, block, index) && releases(p, function, summaries, block, index, o) {
            let (block, index) = choose|block: int, index: int| #[trigger]
                live_operation(f, block, index) && releases(p, function, summaries, block, index, o);
            lemma_must_live(p, summaries, a, function, block, index);
            match operation_at(f, block, index) {
                OperationKind::Assign { destination, value } => {
                    assert(in_struct(destination@));
                    assert(can_be(a, function, value, o));
                    if holds(p, function, destination.local, Origin::ExternalHeap) {
                        assert((a.holds)(function, destination.local, Origin::ExternalHeap));
                    } else {
                        let position = choose|position: usize| #[trigger]
                            holds(p, function, destination.local, Origin::Parameter(position));
                        assert((a.holds)(function, destination.local, Origin::Parameter(position)));
                    }
                },
                OperationKind::Call { function: callee, arguments, .. } => {
                    let i = choose|i: int|
                        0 <= i < arguments@.len() && lets_escape(summaries[callee.0 as int], i) && yields(
                            p,
                            function,
                            #[trigger] arguments@[i],
                            o,
                        );
                    assert(can_be(a, function, arguments@[i], o));
                },
                _ => {},
            }
        } else if exists|block: int| #[trigger] returns_origin(p, function, block, o) {
            let block = choose|block: int| #[trigger] returns_origin(p, function, block, o);
            let steps = choose|steps: nat| reached(f, block, steps);
            lemma_must_reach(p, summaries, a, function, block, steps);
            if let Some(terminator) = f.blocks@[block].terminator {
                if let TerminatorKind::Return(value) = terminator.kind {
                    assert(can_be(a, function, value, o));
                }
            }
        } else {
            lemma_must_be_loose(p, summaries, a, function);
            let local = choose|local: LocalId| #[trigger] is_parameter_origin(p, f, local, o);
            match o {
                Origin::Parameter(position) => {
                    assert(f.parameters@[position as int] == local);
                },
                _ => {},
            }
        }
    } else {
        let owner = choose|owner: Origin|
            escapes_within(p, function, summaries, owner, (steps - 1) as nat) && #[trigger] owns(p, function, owner, o);
        lemma_must_escape(p, summaries, a, function, owner, (steps - 1) as nat);
        let (block, index) = choose|block: int, index: int| #[trigger]
            live_operation(f, block, index) && stores(p, function, block, index, owner, o);
        lemma_must_live(p, summaries, a, function, block, index);
        match operation_at(f, block, index) {
            OperationKind::Aggregate { aggregate: Aggregate::Struct { fields, .. }, .. } => {
                let i = choose|i: int| 0 <= i < fields@.len() && yields(p, function, (#[trigger] fields@[i]).1, o);
                assert(can_be(a, function, fields@[i].1, o));
            },
            OperationKind::Assign { destination, value } => {
                assert(in_struct(destination@));
                assert((a.holds)(function, destination.local, owner));
                assert(can_be(a, function, value, o));
            },
            _ => {},
        }
    }
}

/// Whether calls lead down: no function calls one that ranks as high as itself.
pub open spec fn descends(p: &Program, a: Account, rank: spec_fn(int) -> nat) -> bool {
    forall|function: int, block: int, index: int| #[trigger]
        live(p, a, function, block, index) ==> (p.functions@[function].blocks@[block].operations@[index].kind matches
            OperationKind::Call { function: callee, .. } ==> callee.0 < p.functions@.len() && rank(callee.0 as int)
            < rank(function))
}

proof fn lemma_resolved(
    p: &Program,
    summaries: Seq<SummaryView>,
    a: Account,
    rank: spec_fn(int) -> nat,
    function: int,
    depth: nat,
)
    requires
        complete(p, summaries, a),
        descends(p, a, rank),
        0 <= function < p.functions@.len(),
        rank(function) < depth,
    ensures
        resolved_within(p, function, depth),
    decreases depth,
{
    assert forall|callee: int| #[trigger] calls(p, function, callee) implies resolved_within(
        p,
        callee,
        (depth - 1) as nat,
    ) by {
        let f = &p.functions@[function];
        let (block, index) = choose|block: int, index: int| #[trigger]
            live_operation(f, block, index) && match operation_at(f, block, index) {
                OperationKind::Call { function: called, .. } => called.0 == callee,
                _ => false,
            };
        lemma_must_live(p, summaries, a, function, block, index);
        lemma_resolved(p, summaries, a, rank, callee, (depth - 1) as nat);
    }
}

/// A plan claims no more than it must: where no function can come to call itself, whatever it says to escape escapes by
/// every complete account, and so does every struct that control can come to build and that it puts on the heap,
/// unless lists or maps are in the way.
pub proof fn law_plan_claims_no_more(
    p: &Program,
    plan: &AllocationPlan,
    a: Account,
    rank: spec_fn(int) -> nat,
    function: int,
)
    requires
        is_plan(p, plan),
        complete(p, known_views(plan.summaries@), a),
        descends(p, a, rank),
        0 <= function < p.functions@.len(),
    ensures
        plan.summaries@[function].conservative ==> (a.loose)(function),
        plan.summaries@[function].parameter_escapes@.len() == p.functions@[function].parameters@.len(),
        forall|i: int|
            0 <= i < p.functions@[function].parameters@.len() && #[trigger] plan.summaries@[function].parameter_escapes@[i]
                ==> (a.escapes)(function, Origin::Parameter(i as usize)),
        forall|k: int|
            0 <= k < plan.allocations@.len() && (#[trigger] plan.allocations@[k]).0.function.0 == function
                && plan.allocations@[k].1 == AllocationClass::Heap && reachable(
                &p.functions@[function],
                plan.allocations@[k].0.block.0 as int,
            ) ==> (a.loose)(function) || (a.escapes)(function, Origin::Allocation(plan.allocations@[k].0)),
{
    let views = known_views(plan.summaries@);
    lemma_resolved(p, views, a, rank, function, (rank(function) + 1) as nat);
    assert(resolved(p, function));
    assert(views[function] == summary_of(p, function, views));
    assert(views[function] == plan.summaries@[function]@);
    assert(p.functions.len() == p.functions@.len());
    lemma_classes(p, views, p.functions@.len());
    if conservative(p, function) {
        lemma_must_be_loose(p, views, a, function);
    }
    assert forall|i: int|
        0 <= i < p.functions@[function].parameters@.len() && #[trigger] plan.summaries@[function].parameter_escapes@[i]
        implies (a.escapes)(function, Origin::Parameter(i as usize)) by {
        let origin = Origin::Parameter(i as usize);
        assert(escapes(p, function, views, origin));
        let steps = choose|steps: nat| escapes_within(p, function, views, origin, steps);
        lemma_must_escape(p, views, a, function, origin, steps);
    }
    assert forall|k: int|
        0 <= k < plan.allocations@.len() && (#[trigger] plan.allocations@[k]).0.function.0 == function
            && plan.allocations@[k].1 == AllocationClass::Heap && reachable(
            &p.functions@[function],
            plan.allocations@[k].0.block.0 as int,
        ) implies (a.loose)(function) || (a.escapes)(function, Origin::Allocation(plan.allocations@[k].0)) by {
        let id = plan.allocations@[k].0;
        assert(plan.allocations@[k] == planned(p, views, p.functions@.len())[k]);
        assert(allocation_at(id.function.0 as int, id.block.0 as int, id.operation as int) == id);
        if !conservative(p, function) {
            let origin = Origin::Allocation(id);
            assert(escapes(p, function, views, origin));
            let steps = choose|steps: nat| escapes_within(p, function, views, origin, steps);
            lemma_must_escape(p, views, a, function, origin, steps);
        }
    }
}

} // verus!
