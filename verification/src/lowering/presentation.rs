//! The text form of a program shows nothing but its contents.

use crate::ir::{
    Aggregate, BasicBlock, DefinitionLayout, FieldId, Function, Local, NominalDefinition, Operand, Operation,
    OperationKind, Program, RuntimeCheck, StructField, TerminatorKind, Type, UnionAlternative,
    alternative_views, type_views,
};
use crate::ir::rendering::{
    aggregate_text, alternative_lines_text, alternative_text, alternatives_text, blocks_text, check_text,
    constant_text, definitions_text, entries_text, field_values_text, functions_text, local_lines_text,
    members_text, operand_text, operands_text, operation_lines_text, operation_text, place_text, program_text,
    struct_field_lines_text, terminator_text, type_form_text, type_lines_text,
};
use crate::lowering::assembly::program_view;
use crate::lowering::contents::{
    alike_operations, lemma_alternatives, lemma_block_contents, lemma_fields, lemma_header, lemma_kind,
    lemma_layout, lemma_operands,
};
use crate::lowering::model::{
    aggregate_view, block_view, check_view, definition_view, definition_views, entry_views, field_views,
    function_view, function_views, layout_view, local_view, local_views, operand_views, operation_view,
    terminator_view,
};
use vstd::prelude::*;

verus! {

proof fn lemma_operand(a: &Operand, b: &Operand)
    requires
        a@ == b@,
    ensures
        operand_text(a) == operand_text(b),
{
    if let (Operand::Copy(left), Operand::Copy(right)) = (a, b) {
        assert(left@ == right@);
        assert(place_text(left) == place_text(right));
    }
    if let (Operand::Constant(left), Operand::Constant(right)) = (a, b) {
        assert(constant_text(&left.value) == constant_text(&right.value));
    }
}

proof fn lemma_operands_text(a: Seq<Operand>, b: Seq<Operand>, count: nat)
    requires
        operand_views(a) == operand_views(b),
        count <= a.len(),
    ensures
        operands_text(a, count) == operands_text(b, count),
    decreases count,
{
    lemma_operands(a, b);
    if count > 0 {
        lemma_operand(&a[count - 1], &b[count - 1]);
        lemma_operands_text(a, b, (count - 1) as nat);
    }
}

proof fn lemma_field_values(a: Seq<(FieldId, Operand)>, b: Seq<(FieldId, Operand)>, count: nat)
    requires
        field_views(a) == field_views(b),
        count <= a.len(),
    ensures
        field_values_text(a, count) == field_values_text(b, count),
    decreases count,
{
    lemma_fields(a, b);
    if count > 0 {
        lemma_operand(&a[count - 1].1, &b[count - 1].1);
        lemma_field_values(a, b, (count - 1) as nat);
    }
}

proof fn lemma_entries(a: Seq<(Operand, Operand)>, b: Seq<(Operand, Operand)>, count: nat)
    requires
        entry_views(a) == entry_views(b),
        count <= a.len(),
    ensures
        a.len() == b.len(),
        entries_text(a, count) == entries_text(b, count),
    decreases count,
{
    assert(entry_views(a).len() == a.len());
    assert(entry_views(b).len() == b.len());
    if count > 0 {
        assert(entry_views(a)[count - 1] == (a[count - 1].0@, a[count - 1].1@));
        assert(entry_views(b)[count - 1] == (b[count - 1].0@, b[count - 1].1@));
        lemma_operand(&a[count - 1].0, &b[count - 1].0);
        lemma_operand(&a[count - 1].1, &b[count - 1].1);
        lemma_entries(a, b, (count - 1) as nat);
    }
}

proof fn lemma_aggregate(a: &Aggregate, b: &Aggregate)
    requires
        aggregate_view(*a) == aggregate_view(*b),
    ensures
        aggregate_text(a) == aggregate_text(b),
{
    match (a, b) {
        (Aggregate::Struct { fields: l, .. }, Aggregate::Struct { fields: m, .. }) => {
            lemma_fields(l@, m@);
            lemma_field_values(l@, m@, l@.len());
        },
        (Aggregate::Tuple { elements: l, .. }, Aggregate::Tuple { elements: m, .. }) => {
            lemma_operands(l@, m@);
            lemma_operands_text(l@, m@, l@.len());
        },
        (Aggregate::List { elements: l, .. }, Aggregate::List { elements: m, .. }) => {
            lemma_operands(l@, m@);
            lemma_operands_text(l@, m@, l@.len());
        },
        (Aggregate::Mapping { entries: l, .. }, Aggregate::Mapping { entries: m, .. }) => {
            lemma_entries(l@, m@, l@.len());
        },
        _ => {},
    }
}

proof fn lemma_check(a: &RuntimeCheck, b: &RuntimeCheck)
    requires
        check_view(*a) == check_view(*b),
    ensures
        check_text(a) == check_text(b),
{
    match (a, b) {
        (
            RuntimeCheck::IntegerOverflow { left: l, right: r, .. },
            RuntimeCheck::IntegerOverflow { left: m, right: s, .. },
        ) => {
            lemma_operand(l, m);
            lemma_operand(r, s);
        },
        (RuntimeCheck::IntegerNegation { operand: l, .. }, RuntimeCheck::IntegerNegation { operand: m, .. }) => {
            lemma_operand(l, m);
        },
        (RuntimeCheck::Division { left: l, right: r, .. }, RuntimeCheck::Division { left: m, right: s, .. }) => {
            lemma_operand(l, m);
            lemma_operand(r, s);
        },
        (RuntimeCheck::Remainder { left: l, right: r, .. }, RuntimeCheck::Remainder { left: m, right: s, .. }) => {
            lemma_operand(l, m);
            lemma_operand(r, s);
        },
        (RuntimeCheck::ShiftRange { amount: l, .. }, RuntimeCheck::ShiftRange { amount: m, .. }) => {
            lemma_operand(l, m);
        },
        (RuntimeCheck::FiniteFloat { operand: l, .. }, RuntimeCheck::FiniteFloat { operand: m, .. }) => {
            lemma_operand(l, m);
        },
        (RuntimeCheck::NumericConversion { operand: l, .. }, RuntimeCheck::NumericConversion { operand: m, .. }) => {
            lemma_operand(l, m);
        },
        (RuntimeCheck::IterationUnlocked { receiver: l, .. }, RuntimeCheck::IterationUnlocked { receiver: m, .. }) => {
            lemma_operand(l, m);
        },
        _ => {},
    }
}

proof fn lemma_operation(a: &OperationKind, b: &OperationKind)
    requires
        operation_view(*a) == operation_view(*b),
    ensures
        operation_text(a) == operation_text(b),
{
    match (a, b) {
        (OperationKind::Copy { operand: l, .. }, OperationKind::Copy { operand: m, .. }) => {
            lemma_operand(l, m);
        },
        (OperationKind::Unary { operand: l, .. }, OperationKind::Unary { operand: m, .. }) => {
            lemma_operand(l, m);
        },
        (OperationKind::Binary { left: l, right: r, .. }, OperationKind::Binary { left: m, right: s, .. }) => {
            lemma_operand(l, m);
            lemma_operand(r, s);
        },
        (OperationKind::Convert { operand: l, .. }, OperationKind::Convert { operand: m, .. }) => {
            lemma_operand(l, m);
        },
        (OperationKind::UnionInject { payload: l, .. }, OperationKind::UnionInject { payload: m, .. }) => {
            lemma_operand(l, m);
        },
        (OperationKind::UnionTest { union: l, .. }, OperationKind::UnionTest { union: m, .. }) => {
            lemma_operand(l, m);
        },
        (OperationKind::UnionPayload { union: l, .. }, OperationKind::UnionPayload { union: m, .. }) => {
            lemma_operand(l, m);
        },
        (
            OperationKind::StringIndex { string: l, index: r, .. },
            OperationKind::StringIndex { string: m, index: s, .. },
        ) => {
            lemma_operand(l, m);
            lemma_operand(r, s);
        },
        (OperationKind::BeginIteration { iterable: l }, OperationKind::BeginIteration { iterable: m }) => {
            lemma_operand(l, m);
        },
        (OperationKind::EndIteration { iterable: l }, OperationKind::EndIteration { iterable: m }) => {
            lemma_operand(l, m);
        },
        (
            OperationKind::IterationValue { iterable: l, index: r, .. },
            OperationKind::IterationValue { iterable: m, index: s, .. },
        ) => {
            lemma_operand(l, m);
            lemma_operand(r, s);
        },
        (OperationKind::Aggregate { aggregate: l, .. }, OperationKind::Aggregate { aggregate: m, .. }) => {
            lemma_aggregate(l, m);
        },
        (OperationKind::Assign { destination: l, value: r }, OperationKind::Assign { destination: m, value: s }) => {
            assert(l@ == m@);
            assert(place_text(l) == place_text(m));
            lemma_operand(r, s);
        },
        (OperationKind::Call { arguments: l, .. }, OperationKind::Call { arguments: m, .. }) => {
            lemma_operands(l@, m@);
            lemma_operands_text(l@, m@, l@.len());
        },
        (OperationKind::Intrinsic { arguments: l, .. }, OperationKind::Intrinsic { arguments: m, .. }) => {
            lemma_operands(l@, m@);
            lemma_operands_text(l@, m@, l@.len());
        },
        (
            OperationKind::Builtin { receiver: l, arguments: r, .. },
            OperationKind::Builtin { receiver: m, arguments: s, .. },
        ) => {
            lemma_operand(l, m);
            lemma_operands(r@, s@);
            lemma_operands_text(r@, s@, r@.len());
        },
        (OperationKind::Check(l), OperationKind::Check(m)) => {
            lemma_check(l, m);
        },
        _ => {},
    }
}

proof fn lemma_terminator(a: &TerminatorKind, b: &TerminatorKind)
    requires
        terminator_view(*a) == terminator_view(*b),
    ensures
        terminator_text(a) == terminator_text(b),
{
    match (a, b) {
        (TerminatorKind::Branch { condition: l, .. }, TerminatorKind::Branch { condition: m, .. }) => {
            lemma_operand(l, m);
        },
        (TerminatorKind::Switch { union: l, .. }, TerminatorKind::Switch { union: m, .. }) => {
            lemma_operand(l, m);
        },
        (TerminatorKind::Return(l), TerminatorKind::Return(m)) => {
            lemma_operand(l, m);
        },
        (TerminatorKind::Panic { message: l, .. }, TerminatorKind::Panic { message: m, .. }) => {
            lemma_operand(l, m);
        },
        (TerminatorKind::ErrorPanic { payload: l, .. }, TerminatorKind::ErrorPanic { payload: m, .. }) => {
            lemma_operand(l, m);
        },
        _ => {},
    }
}

proof fn lemma_operation_lines(a: Seq<Operation>, b: Seq<Operation>, count: nat)
    requires
        alike_operations(a, b),
        count <= a.len(),
    ensures
        operation_lines_text(a, count) == operation_lines_text(b, count),
    decreases count,
{
    if count > 0 {
        lemma_kind(a, b, count - 1);
        lemma_operation(&a[count - 1].kind, &b[count - 1].kind);
        lemma_operation_lines(a, b, (count - 1) as nat);
    }
}

proof fn lemma_blocks(a: Seq<BasicBlock>, b: Seq<BasicBlock>, count: nat)
    requires
        count <= a.len(),
        a.len() == b.len(),
        forall|i: int| 0 <= i < a.len() ==> block_view(#[trigger] a[i]) == block_view(b[i]),
    ensures
        blocks_text(a, count) == blocks_text(b, count),
    decreases count,
{
    if count > 0 {
        let left = &a[count - 1];
        let right = &b[count - 1];
        lemma_block_contents(left, right);
        lemma_operation_lines(left.operations@, right.operations@, left.operations@.len());
        if let (Some(ending), Some(other)) = (&left.terminator, &right.terminator) {
            lemma_terminator(&ending.kind, &other.kind);
        }
        lemma_blocks(a, b, (count - 1) as nat);
    }
}

proof fn lemma_locals(a: Seq<Local>, b: Seq<Local>, count: nat)
    requires
        local_views(a) == local_views(b),
        count <= a.len(),
    ensures
        a.len() == b.len(),
        local_lines_text(a, count) == local_lines_text(b, count),
    decreases count,
{
    assert(local_views(a).len() == a.len());
    assert(local_views(b).len() == b.len());
    if count > 0 {
        assert(local_views(a)[count - 1] == local_view(a[count - 1]));
        assert(local_views(b)[count - 1] == local_view(b[count - 1]));
        lemma_locals(a, b, (count - 1) as nat);
    }
}

proof fn lemma_functions(a: Seq<Function>, b: Seq<Function>, count: nat)
    requires
        function_views(a) == function_views(b),
        count <= a.len(),
    ensures
        a.len() == b.len(),
        functions_text(a, count) == functions_text(b, count),
    decreases count,
{
    assert(function_views(a).len() == a.len());
    assert(function_views(b).len() == b.len());
    if count > 0 {
        let left = &a[count - 1];
        let right = &b[count - 1];
        assert(function_views(a)[count - 1] == function_view(*left));
        assert(function_views(b)[count - 1] == function_view(*right));
        lemma_header(left, right);
        assert(local_views(left.locals@) == function_view(*left).locals);
        assert(local_views(right.locals@) == function_view(*right).locals);
        lemma_locals(left.locals@, right.locals@, left.locals@.len());
        lemma_blocks(left.blocks@, right.blocks@, left.blocks@.len());
        lemma_functions(a, b, (count - 1) as nat);
    }
}

proof fn lemma_alternative(a: &UnionAlternative, b: &UnionAlternative)
    requires
        a@ == b@,
    ensures
        alternative_text(a) == alternative_text(b),
{
    assert(a.constructor@ == b.constructor@);
}

proof fn lemma_alternatives_text(a: Seq<UnionAlternative>, b: Seq<UnionAlternative>, count: nat)
    requires
        alternative_views(a) == alternative_views(b),
        count <= a.len(),
    ensures
        alternatives_text(a, count) == alternatives_text(b, count),
        alternative_lines_text(a, count) == alternative_lines_text(b, count),
    decreases count,
{
    lemma_alternatives(a, b);
    if count > 0 {
        assert(a[count - 1]@ == b[count - 1]@);
        lemma_alternative(&a[count - 1], &b[count - 1]);
        lemma_alternatives_text(a, b, (count - 1) as nat);
    }
}

proof fn lemma_types(a: Seq<Type>, b: Seq<Type>, count: nat)
    requires
        type_views(a) == type_views(b),
        count <= a.len(),
    ensures
        a.len() == b.len(),
        type_lines_text(a, count) == type_lines_text(b, count),
    decreases count,
{
    assert(type_views(a).len() == a.len());
    assert(type_views(b).len() == b.len());
    if count > 0 {
        assert(type_views(a)[count - 1] == a[count - 1]@);
        assert(type_views(b)[count - 1] == b[count - 1]@);
        if let (Type::Union(left), Type::Union(right)) = (a[count - 1], b[count - 1]) {
            lemma_alternatives(left@, right@);
            lemma_alternatives_text(left@, right@, left@.len());
        }
        assert(type_form_text(&a[count - 1]) == type_form_text(&b[count - 1]));
        lemma_types(a, b, (count - 1) as nat);
    }
}

proof fn lemma_struct_fields(a: Seq<StructField>, b: Seq<StructField>, count: nat)
    requires
        count <= a.len(),
        a.len() == b.len(),
        forall|i: int|
            0 <= i < a.len() ==> (#[trigger] a[i]).name@ == b[i].name@ && a[i].ty == b[i].ty && a[i].storage
                == b[i].storage,
    ensures
        struct_field_lines_text(a, count) == struct_field_lines_text(b, count),
    decreases count,
{
    if count > 0 {
        assert(a[count - 1].name@ == b[count - 1].name@);
        lemma_struct_fields(a, b, (count - 1) as nat);
    }
}

proof fn lemma_definitions(a: Seq<NominalDefinition>, b: Seq<NominalDefinition>, count: nat)
    requires
        definition_views(a) == definition_views(b),
        count <= a.len(),
    ensures
        a.len() == b.len(),
        definitions_text(a, count) == definitions_text(b, count),
    decreases count,
{
    assert(definition_views(a).len() == a.len());
    assert(definition_views(b).len() == b.len());
    if count > 0 {
        assert(definition_views(a)[count - 1] == definition_view(a[count - 1]));
        assert(definition_views(b)[count - 1] == definition_view(b[count - 1]));
        let left = a[count - 1].layout;
        let right = b[count - 1].layout;
        assert(layout_view(left) == layout_view(right));
        lemma_layout(left, right);
        match (left, right) {
            (DefinitionLayout::Struct(l), DefinitionLayout::Struct(m)) => {
                lemma_struct_fields(l@, m@, l@.len());
            },
            (DefinitionLayout::Union(l), DefinitionLayout::Union(m)) => {
                lemma_alternatives(l@, m@);
                lemma_alternatives_text(l@, m@, l@.len());
            },
            _ => {},
        }
        assert(members_text(&left) == members_text(&right));
        lemma_definitions(a, b, (count - 1) as nat);
    }
}

/// Programs with the same contents have the same text form. So lowering the same facts again gives a program with
/// the same text form.
pub proof fn law_text_is_of_contents(p: &Program, q: &Program)
    requires
        program_view(*p) == program_view(*q),
    ensures
        program_text(p) == program_text(q),
{
    assert(program_view(*p).filename == program_view(*q).filename);
    assert(program_view(*p).types == program_view(*q).types);
    assert(program_view(*p).definitions == program_view(*q).definitions);
    assert(program_view(*p).functions == program_view(*q).functions);
    assert(program_view(*p).locations == program_view(*q).locations);
    assert(program_view(*p).failure_sites == program_view(*q).failure_sites);
    lemma_types(p.types@, q.types@, p.types@.len());
    lemma_definitions(p.definitions@, q.definitions@, p.definitions@.len());
    lemma_functions(p.functions@, q.functions@, p.functions@.len());
}

} // verus!
