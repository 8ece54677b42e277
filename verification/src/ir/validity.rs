//! What can be relied on in a program that passed validation.

use crate::ir::{
    AlternativeId, BlockId, DefinitionId, Function, FunctionId, LocalOrigin, Program, StructField, TypeId,
    UnionAlternative, type_views, types_are_canonical,
};
use crate::ir::validation::{
    basic_block_check, blocks_check, definition_check, definitions_check, each_alternative_check,
    function_check, function_name_before, functions_check, header_check, layout_fields_check,
    layout_types_check, locals_check, operation_check, operations_check, parameters_check, program_check,
    targets_check, terminator_check, type_check, types_check,
};
use vstd::prelude::*;

verus! {

/// A program with which nothing is wrong.
#[verifier::opaque]
pub open spec fn valid(p: &Program) -> bool {
    program_check(p) is Ok
}

proof fn lemma_each_type(p: &Program, from: int, index: int)
    requires
        0 <= from <= index < p.types.len(),
        types_check(p, from) is Ok,
    ensures
        type_check(p, TypeId(index as usize)) is Ok,
        !type_views(p.types@.take(index)).contains(p.types@[index]@),
    decreases index - from,
{
    if from < index {
        lemma_each_type(p, from + 1, index);
    }
}

/// Each type of a valid program is well-formed.
pub proof fn lemma_valid_type(p: &Program, index: int)
    requires
        valid(p),
        0 <= index < p.types.len(),
    ensures
        type_check(p, TypeId(index as usize)) is Ok,
{
    reveal(valid);
    lemma_each_type(p, 0, index);
}

/// No two types of a valid program are the same.
pub proof fn law_valid_types_are_canonical(p: &Program)
    requires
        valid(p),
    ensures
        types_are_canonical(p.types@),
{
    reveal(valid);
    assert forall|i: int, j: int| 0 <= i < j < p.types@.len() implies (#[trigger] p.types@[i])@ != (
    #[trigger] p.types@[j])@ by {
        lemma_each_type(p, 0, j);
        assert(type_views(p.types@.take(j))[i] == p.types@[i]@);
    }
}

proof fn lemma_each_definition(p: &Program, from: int, index: int)
    requires
        0 <= from <= index < p.definitions.len(),
        definitions_check(p, from) is Ok,
    ensures
        definition_check(p, DefinitionId(index as usize)) is Ok,
    decreases index - from,
{
    if from < index {
        lemma_each_definition(p, from + 1, index);
    }
}

/// Each definition of a valid program is well-formed.
pub proof fn lemma_valid_definition(p: &Program, index: int)
    requires
        valid(p),
        0 <= index < p.definitions.len(),
    ensures
        definition_check(p, DefinitionId(index as usize)) is Ok,
{
    reveal(valid);
    lemma_each_definition(p, 0, index);
}

proof fn lemma_each_function(p: &Program, from: int, index: int)
    requires
        0 <= from <= index < p.functions.len(),
        functions_check(p, from) is Ok,
    ensures
        function_check(p, FunctionId(index as usize)) is Ok,
        !function_name_before(p.functions@, index, p.functions@[index].name@),
    decreases index - from,
{
    if from < index {
        lemma_each_function(p, from + 1, index);
    }
}

proof fn lemma_each_block(p: &Program, id: FunctionId, f: &Function, from: int, index: int)
    requires
        0 <= from <= index < f.blocks@.len(),
        blocks_check(p, id, f, from) is Ok,
    ensures
        basic_block_check(p, id, f, index) is Ok,
    decreases index - from,
{
    if from < index {
        lemma_each_block(p, id, f, from + 1, index);
    }
}

proof fn lemma_each_operation(p: &Program, id: FunctionId, f: &Function, block: int, from: int, index: int)
    requires
        0 <= from <= index < f.blocks@[block].operations@.len(),
        operations_check(p, id, f, block, from) is Ok,
    ensures
        operation_check(p, Some(id), f, &f.blocks@[block].operations@[index]) is Ok,
    decreases index - from,
{
    if from < index {
        lemma_each_operation(p, id, f, block, from + 1, index);
    }
}

/// The header of each function of a valid program is well-formed.
pub proof fn lemma_valid_header(p: &Program, function: int)
    requires
        valid(p),
        0 <= function < p.functions.len(),
    ensures
        header_check(p, &p.functions@[function]) is Ok,
        p.functions@[function].entry is Some,
        p.functions@[function].entry->Some_0.0 < p.functions@[function].blocks@.len(),
{
    reveal(valid);
    lemma_each_function(p, 0, function);
}

/// Each operation of a valid program is well-formed.
pub proof fn lemma_valid_operation(p: &Program, function: int, block: int, index: int)
    requires
        valid(p),
        0 <= function < p.functions.len(),
        0 <= block < p.functions@[function].blocks@.len(),
        0 <= index < p.functions@[function].blocks@[block].operations@.len(),
    ensures
        operation_check(
            p,
            Some(FunctionId(function as usize)),
            &p.functions@[function],
            &p.functions@[function].blocks@[block].operations@[index],
        ) is Ok,
{
    reveal(valid);
    lemma_each_function(p, 0, function);
    let id = FunctionId(function as usize);
    lemma_each_block(p, id, &p.functions@[function], 0, block);
    lemma_each_operation(p, id, &p.functions@[function], block, 0, index);
}

/// Each block of a valid program ends in a well-formed terminator.
pub proof fn lemma_valid_terminator(p: &Program, function: int, block: int)
    requires
        valid(p),
        0 <= function < p.functions.len(),
        0 <= block < p.functions@[function].blocks@.len(),
    ensures
        p.functions@[function].blocks@[block].terminator is Some,
        terminator_check(
            p,
            Some(FunctionId(function as usize)),
            &p.functions@[function],
            &p.functions@[function].blocks@[block].terminator->Some_0,
        ) is Ok,
{
    reveal(valid);
    lemma_each_function(p, 0, function);
    let id = FunctionId(function as usize);
    lemma_each_block(p, id, &p.functions@[function], 0, block);
}

proof fn lemma_each_parameter(f: &Function, from: int, index: int)
    requires
        0 <= from <= index < f.parameters@.len(),
        parameters_check(f, from) is Ok,
    ensures
        f.parameters@[index].0 < f.locals@.len(),
        f.locals@[f.parameters@[index].0 as int].origin == LocalOrigin::Parameter,
        !f.parameters@.take(index).contains(f.parameters@[index]),
    decreases index - from,
{
    if from < index {
        lemma_each_parameter(f, from + 1, index);
    }
}

/// Each parameter of a well-formed function is one of its locals.
pub proof fn lemma_valid_parameter(p: &Program, f: &Function, index: int)
    requires
        header_check(p, f) is Ok,
        0 <= index < f.parameters@.len(),
    ensures
        f.parameters@[index].0 < f.locals@.len(),
        f.locals@[f.parameters@[index].0 as int].origin == LocalOrigin::Parameter,
{
    lemma_each_parameter(f, 0, index);
}

proof fn lemma_each_local(p: &Program, f: &Function, from: int, index: int)
    requires
        0 <= from <= index < f.locals@.len(),
        locals_check(p, f, from) is Ok,
    ensures
        f.locals@[index].ty.0 < p.types@.len(),
    decreases index - from,
{
    if from < index {
        lemma_each_local(p, f, from + 1, index);
    }
}

/// The type of each local of a well-formed function is one of the program.
pub proof fn lemma_valid_local(p: &Program, f: &Function, index: int)
    requires
        header_check(p, f) is Ok,
        0 <= index < f.locals@.len(),
    ensures
        f.locals@[index].ty.0 < p.types@.len(),
{
    lemma_each_local(p, f, 0, index);
}

/// Each target of a switch is a block of the function.
pub proof fn lemma_valid_target(
    f: &Function,
    alternatives: nat,
    targets: Seq<(AlternativeId, BlockId)>,
    from: int,
    index: int,
)
    requires
        0 <= from <= index < targets.len(),
        targets_check(f, alternatives, targets, from) is Ok,
    ensures
        targets[index].1.0 < f.blocks@.len(),
    decreases index - from,
{
    if from < index {
        lemma_valid_target(f, alternatives, targets, from + 1, index);
    }
}

/// Each payload of a well-formed union is a type of the program.
pub proof fn lemma_valid_payload(
    p: &Program,
    owner: Seq<char>,
    alternatives: Seq<UnionAlternative>,
    from: int,
    index: int,
)
    requires
        0 <= from <= index < alternatives.len(),
        each_alternative_check(p, owner, alternatives, from) is Ok,
    ensures
        alternatives[index].payload.0 < p.types@.len(),
    decreases index - from,
{
    if from < index {
        lemma_valid_payload(p, owner, alternatives, from + 1, index);
    }
}

/// Each field of a well-formed tuple layout has a type of the program.
pub proof fn lemma_valid_tuple_field(p: &Program, fields: Seq<TypeId>, from: int, index: int)
    requires
        0 <= from <= index < fields.len(),
        layout_types_check(p, fields, from) is Ok,
    ensures
        fields[index].0 < p.types@.len(),
    decreases index - from,
{
    if from < index {
        lemma_valid_tuple_field(p, fields, from + 1, index);
    }
}

/// Each field of a well-formed struct layout has a type of the program.
pub proof fn lemma_valid_struct_field(p: &Program, id: DefinitionId, fields: Seq<StructField>, from: int, index: int)
    requires
        0 <= from <= index < fields.len(),
        layout_fields_check(p, id, fields, from) is Ok,
    ensures
        fields[index].ty.0 < p.types@.len(),
    decreases index - from,
{
    if from < index {
        lemma_valid_struct_field(p, id, fields, from + 1, index);
    }
}

} // verus!
