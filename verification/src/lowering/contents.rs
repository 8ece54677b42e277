//! Validation sees nothing of a program but its contents.

use crate::ir::{
    Aggregate, AlternativeConstructor, AlternativeId, BasicBlock, BinaryOperator, BlockId, BuiltinMethod,
    ConstructorView, DefinitionId, DefinitionLayout, FailureOperation, FailureSiteId, FieldId, Function,
    FunctionId, Intrinsic, LocalId, MemberStorage, NumericConversion, Operand, OperandView, Operation,
    OperationKind, PlaceView, PrimitiveType, Program, Projection, RuntimeCheck, StructField, Terminator,
    TerminatorKind, Type, TypeId, UnaryOperator, UnionAlternative, alternative_views, type_views,
};
use crate::ir::validation::{
    ErrorView, adjacent_check, aggregate_type, all_expected, alternative_before, alternative_check,
    alternatives_check, alternatives_of, arguments_check, basic_block_check, binary_result, blocks_check,
    builtin_check, check_failures, check_site, comparable, consumed, conversion_result, definition_check,
    definition_name_before, definitions_check, each_alternative_check, ending_check, entries_check,
    failures_check, field_before, function_check, function_name_before, functions_check, header_check,
    intrinsic_arguments, iterable_check, kind_at, layout_fields_check, layout_types_check,
    lemma_listing_definition, lemma_listing_type, local_at, locals_check, locations_check, mixed_before,
    name_before, neighbours_check, nominals_check, operand_expected, operand_type, operands_expected,
    operation_check, operations_check, parameters_check, payload_before, payload_of, place_type, postchecked,
    prechecked, primitive, printable, program_check, projected_type, projection_type, runtime_check,
    sequence_check, storage_is_legal, struct_fields_check, tables_check, targets_check, terminator_check,
    type_at, type_check, types_check, unary_result, unlisted_definitions, unlisted_types,
};
use crate::lowering::assembly::{ProgramView, program_view};
use crate::lowering::model::{
    aggregate_view, block_view, check_view, definition_view, definition_views, entry_views, field_views,
    function_view, function_views, layout_view, local_view, operand_views, operation_view, operation_views,
    terminator_view,
};
use vstd::prelude::*;

verus! {

/// Two programs with the same contents.
pub open spec fn alike(p: &Program, q: &Program) -> bool {
    program_view(*p) == program_view(*q)
}

/// Two functions with the same contents.
pub open spec fn alike_functions(f: &Function, g: &Function) -> bool {
    function_view(*f) == function_view(*g)
}

pub proof fn lemma_tables(p: &Program, q: &Program)
    requires
        alike(p, q),
    ensures
        p.source.filename@ == q.source.filename@,
        p.source.byte_len == q.source.byte_len,
        p.types@.len() == q.types@.len(),
        p.types.len() == q.types.len(),
        type_views(p.types@) == type_views(q.types@),
        p.definitions@.len() == q.definitions@.len(),
        p.definitions.len() == q.definitions.len(),
        p.functions@.len() == q.functions@.len(),
        p.entry == q.entry,
        p.locations@ == q.locations@,
        p.failure_sites@ == q.failure_sites@,
{
    let left = program_view(*p);
    let right = program_view(*q);
    assert(left.types.len() == right.types.len());
    assert(left.definitions.len() == right.definitions.len());
    assert(left.functions.len() == right.functions.len());
}

pub proof fn lemma_type(p: &Program, q: &Program, id: TypeId)
    requires
        alike(p, q),
    ensures
        p.types@.len() == q.types@.len(),
        id.0 < p.types@.len() ==> p.types@[id.0 as int]@ == q.types@[id.0 as int]@,
{
    lemma_tables(p, q);
    if id.0 < p.types@.len() {
        assert(type_views(p.types@)[id.0 as int] == p.types@[id.0 as int]@);
        assert(type_views(q.types@)[id.0 as int] == q.types@[id.0 as int]@);
    }
}

/// Layouts with the same contents hold the same fields and alternatives.
pub proof fn lemma_layout(a: DefinitionLayout, b: DefinitionLayout)
    requires
        layout_view(a) == layout_view(b),
    ensures
        a matches DefinitionLayout::Struct(left) ==> (b matches DefinitionLayout::Struct(right) && left@.len()
            == right@.len() && forall|i: int|
            0 <= i < left@.len() ==> (#[trigger] left@[i]).name@ == right@[i].name@ && left@[i].ty == right@[i].ty
                && left@[i].storage == right@[i].storage),
        a matches DefinitionLayout::Tuple(left) ==> (b matches DefinitionLayout::Tuple(right) && left@ == right@),
        a matches DefinitionLayout::Union(left) ==> (b matches DefinitionLayout::Union(right) && alternative_views(
            left@,
        ) == alternative_views(right@)),
{
    if let DefinitionLayout::Struct(left) = a {
        let right = b->Struct_0;
        let shown = layout_view(a)->Struct_0;
        assert(shown == layout_view(b)->Struct_0);
        assert(shown.len() == left@.len());
        assert(shown.len() == right@.len());
        assert forall|i: int| 0 <= i < left@.len() implies (#[trigger] left@[i]).name@ == right@[i].name@
            && left@[i].ty == right@[i].ty && left@[i].storage == right@[i].storage by {
            assert(shown[i] == (left@[i].name@, left@[i].ty, left@[i].storage));
            assert(layout_view(b)->Struct_0[i] == (right@[i].name@, right@[i].ty, right@[i].storage));
        }
    }
}

pub proof fn lemma_alternatives(a: Seq<UnionAlternative>, b: Seq<UnionAlternative>)
    requires
        alternative_views(a) == alternative_views(b),
    ensures
        a.len() == b.len(),
        forall|i: int|
            0 <= i < a.len() ==> (#[trigger] a[i])@ == b[i]@ && a[i].payload == b[i].payload && a[i].constructor@
                == b[i].constructor@,
{
    assert(alternative_views(a).len() == a.len());
    assert(alternative_views(b).len() == b.len());
    assert forall|i: int| 0 <= i < a.len() implies (#[trigger] a[i])@ == b[i]@ && a[i].payload == b[i].payload
        && a[i].constructor@ == b[i].constructor@ by {
        assert(alternative_views(a)[i] == a[i]@);
        assert(alternative_views(b)[i] == b[i]@);
    }
}

pub proof fn lemma_definition(p: &Program, q: &Program, id: DefinitionId)
    requires
        alike(p, q),
    ensures
        p.definitions@.len() == q.definitions@.len(),
        id.0 < p.definitions@.len() ==> p.definitions@[id.0 as int].name@ == q.definitions@[id.0 as int].name@
            && layout_view(p.definitions@[id.0 as int].layout) == layout_view(q.definitions@[id.0 as int].layout),
{
    lemma_tables(p, q);
    if id.0 < p.definitions@.len() {
        assert(definition_views(p.definitions@)[id.0 as int] == definition_view(p.definitions@[id.0 as int]));
        assert(definition_views(q.definitions@)[id.0 as int] == definition_view(q.definitions@[id.0 as int]));
        assert(program_view(*p).definitions == program_view(*q).definitions);
    }
}

pub proof fn lemma_function(p: &Program, q: &Program, index: int)
    requires
        alike(p, q),
        0 <= index < p.functions@.len(),
    ensures
        index < q.functions@.len(),
        alike_functions(&p.functions@[index], &q.functions@[index]),
{
    lemma_tables(p, q);
    assert(function_views(p.functions@)[index] == function_view(p.functions@[index]));
    assert(function_views(q.functions@)[index] == function_view(q.functions@[index]));
    assert(program_view(*p).functions == program_view(*q).functions);
}

/// Functions with the same contents have the same header, locals and blocks.
pub proof fn lemma_header(f: &Function, g: &Function)
    requires
        alike_functions(f, g),
    ensures
        f.name@ == g.name@,
        f.parameters@ == g.parameters@,
        f.result == g.result,
        f.entry == g.entry,
        f.locals@.len() == g.locals@.len(),
        forall|i: int|
            0 <= i < f.locals@.len() ==> (#[trigger] f.locals@[i]).ty == g.locals@[i].ty && f.locals@[i].origin
                == g.locals@[i].origin,
        f.blocks@.len() == g.blocks@.len(),
        forall|i: int| 0 <= i < f.blocks@.len() ==> block_view(#[trigger] f.blocks@[i]) == block_view(g.blocks@[i]),
{
    let left = function_view(*f);
    let right = function_view(*g);
    assert(left.locals.len() == right.locals.len());
    assert(left.blocks.len() == right.blocks.len());
    assert forall|i: int| 0 <= i < f.locals@.len() implies (#[trigger] f.locals@[i]).ty == g.locals@[i].ty
        && f.locals@[i].origin == g.locals@[i].origin by {
        assert(left.locals[i] == local_view(f.locals@[i]));
        assert(right.locals[i] == local_view(g.locals@[i]));
    }
    assert forall|i: int| 0 <= i < f.blocks@.len() implies block_view(#[trigger] f.blocks@[i]) == block_view(
        g.blocks@[i],
    ) by {
        assert(left.blocks[i] == block_view(f.blocks@[i]));
        assert(right.blocks[i] == block_view(g.blocks@[i]));
    }
}

pub proof fn lemma_operands(a: Seq<Operand>, b: Seq<Operand>)
    requires
        operand_views(a) == operand_views(b),
    ensures
        a.len() == b.len(),
        forall|i: int| 0 <= i < a.len() ==> (#[trigger] a[i])@ == b[i]@,
{
    assert(operand_views(a).len() == a.len());
    assert(operand_views(b).len() == b.len());
    assert forall|i: int| 0 <= i < a.len() implies (#[trigger] a[i])@ == b[i]@ by {
        assert(operand_views(a)[i] == a[i]@);
        assert(operand_views(b)[i] == b[i]@);
    }
}

proof fn lemma_comparable(p: &Program, q: &Program, ty: TypeId, within: Seq<DefinitionId>)
    requires
        alike(p, q),
    ensures
        comparable(p, ty, within) == comparable(q, ty, within),
    decreases unlisted_definitions(p.definitions.len() as nat, within),
{
    lemma_tables(p, q);
    lemma_type(p, q, ty);
    if ty.0 < p.types@.len() {
        if let Type::Nominal(definition) = p.types@[ty.0 as int] {
            lemma_definition(p, q, definition);
            if !within.contains(definition) && definition.0 < p.definitions.len() {
                lemma_listing_definition(p.definitions.len() as nat, within, definition);
                let left = p.definitions@[definition.0 as int].layout;
                let right = q.definitions@[definition.0 as int].layout;
                lemma_layout(left, right);
                lemma_layout(right, left);
                if let DefinitionLayout::Tuple(fields) = left {
                    let others = right->Tuple_0;
                    assert(fields@ == others@);
                    let inner = within.push(definition);
                    assert forall|i: int| 0 <= i < fields@.len() implies comparable(p, #[trigger] fields@[i], inner)
                        == comparable(q, fields@[i], inner) by {
                        lemma_comparable(p, q, fields@[i], inner);
                    }
                    assert(comparable(p, ty, within) == (forall|i: int|
                        0 <= i < fields@.len() ==> comparable(p, #[trigger] fields@[i], inner)));
                    assert(comparable(q, ty, within) == (forall|i: int|
                        0 <= i < others@.len() ==> comparable(q, #[trigger] others@[i], inner)));
                }
            }
        }
    }
}

proof fn lemma_printable(
    p: &Program,
    q: &Program,
    ty: TypeId,
    within: Seq<DefinitionId>,
    unions: Seq<TypeId>,
)
    requires
        alike(p, q),
    ensures
        printable(p, ty, within, unions) == printable(q, ty, within, unions),
    decreases
        unlisted_definitions(p.definitions.len() as nat, within) + unlisted_types(p.types.len() as nat, unions),
{
    lemma_tables(p, q);
    lemma_type(p, q, ty);
    if ty.0 < p.types.len() {
        match p.types@[ty.0 as int] {
            Type::Union(left) => {
                let right = q.types@[ty.0 as int]->Union_0;
                lemma_alternatives(left@, right@);
                if !unions.contains(ty) {
                    lemma_listing_type(p.types.len() as nat, unions, ty);
                    assert forall|i: int| 0 <= i < left@.len() implies printable(
                        p,
                        (#[trigger] left@[i]).payload,
                        within,
                        unions.push(ty),
                    ) == printable(q, right@[i].payload, within, unions.push(ty)) by {
                        lemma_printable(p, q, left@[i].payload, within, unions.push(ty));
                    }
                    assert(forall|i: int| 0 <= i < right@.len() ==> left@[i].payload == (#[trigger] right@[i]).payload);
                    assert(printable(p, ty, within, unions) == (forall|i: int|
                        0 <= i < left@.len() ==> printable(
                            p,
                            (#[trigger] left@[i]).payload,
                            within,
                            unions.push(ty),
                        )));
                    assert(printable(q, ty, within, unions) == (forall|i: int|
                        0 <= i < right@.len() ==> printable(
                            q,
                            (#[trigger] right@[i]).payload,
                            within,
                            unions.push(ty),
                        )));
                }
            },
            Type::Nominal(definition) => {
                lemma_definition(p, q, definition);
                if !within.contains(definition) && definition.0 < p.definitions.len() {
                    lemma_listing_definition(p.definitions.len() as nat, within, definition);
                    let a = p.definitions@[definition.0 as int].layout;
                    let b = q.definitions@[definition.0 as int].layout;
                    lemma_layout(a, b);
                    lemma_layout(b, a);
                    let inner = within.push(definition);
                    match a {
                        DefinitionLayout::Tuple(left) => {
                            let right = b->Tuple_0;
                            assert forall|i: int| 0 <= i < left@.len() implies printable(
                                p,
                                #[trigger] left@[i],
                                inner,
                                unions,
                            ) == printable(q, left@[i], inner, unions) by {
                                lemma_printable(p, q, left@[i], inner, unions);
                            }
                            assert(printable(p, ty, within, unions) == (forall|i: int|
                                0 <= i < left@.len() ==> printable(p, #[trigger] left@[i], inner, unions)));
                            assert(printable(q, ty, within, unions) == (forall|i: int|
                                0 <= i < right@.len() ==> printable(q, #[trigger] right@[i], inner, unions)));
                        },
                        DefinitionLayout::Union(left) => {
                            let right = b->Union_0;
                            lemma_alternatives(left@, right@);
                            assert forall|i: int| 0 <= i < left@.len() implies printable(
                                p,
                                (#[trigger] left@[i]).payload,
                                inner,
                                unions,
                            ) == printable(q, right@[i].payload, inner, unions) by {
                                lemma_printable(p, q, left@[i].payload, inner, unions);
                            }
                            assert(forall|i: int| 0 <= i < right@.len() ==> left@[i].payload == (#[trigger] right@[i]).payload);
                            assert(printable(p, ty, within, unions) == (forall|i: int|
                                0 <= i < left@.len() ==> printable(
                                    p,
                                    (#[trigger] left@[i]).payload,
                                    inner,
                                    unions,
                                )));
                            assert(printable(q, ty, within, unions) == (forall|i: int|
                                0 <= i < right@.len() ==> printable(
                                    q,
                                    (#[trigger] right@[i]).payload,
                                    inner,
                                    unions,
                                )));
                        },
                        DefinitionLayout::Struct(_) => {},
                    }
                }
            },
            _ => {},
        }
    }
}

proof fn lemma_alternatives_of(
    p: &Program,
    q: &Program,
    ty: TypeId,
)
    requires
        alike(p, q),
    ensures
        alternatives_of(p, ty) matches Err(message) ==> alternatives_of(q, ty) == alternatives_of(p, ty),
        alternatives_of(p, ty) matches Ok(left) ==> (alternatives_of(q, ty) matches Ok(right) && alternative_views(left) == alternative_views(right)),
        forall|alternative: AlternativeId| #[trigger] payload_of(p, ty, alternative) == payload_of(q, ty, alternative),
{
    lemma_tables(p, q);
    lemma_type(p, q, ty);
    if ty.0 < p.types@.len() {
        if let Type::Nominal(definition) = p.types@[ty.0 as int] {
            lemma_definition(p, q, definition);
            if definition.0 < p.definitions@.len() {
                let left = p.definitions@[definition.0 as int].layout;
                let right = q.definitions@[definition.0 as int].layout;
                lemma_layout(left, right);
                lemma_layout(right, left);
            }
        }
    }
    if let Ok(left) = alternatives_of(p, ty) {
        lemma_alternatives(left, alternatives_of(q, ty)->Ok_0);
    }
}

proof fn lemma_projection(
    p: &Program,
    q: &Program,
    function: Option<FunctionId>,
    f: &Function,
    g: &Function,
    current: TypeId,
    projection: Projection,
)
    requires
        alike(p, q),
        alike_functions(f, g),
    ensures
        projection_type(p, function, f, current, projection) == projection_type(q, function, g, current, projection),
{
    lemma_tables(p, q);
    lemma_type(p, q, current);
    lemma_header(f, g);
    match projection {
        Projection::StructField { definition, .. } | Projection::TupleField { definition, .. } => {
            lemma_definition(p, q, definition);
            if definition.0 < p.definitions@.len() {
                let left = p.definitions@[definition.0 as int].layout;
                let right = q.definitions@[definition.0 as int].layout;
                lemma_layout(left, right);
                lemma_layout(right, left);
            }
        },
        _ => {},
    }
}

proof fn lemma_projected(
    p: &Program,
    q: &Program,
    function: Option<FunctionId>,
    f: &Function,
    g: &Function,
    start: TypeId,
    projections: Seq<Projection>,
    count: nat,
)
    requires
        alike(p, q),
        alike_functions(f, g),
    ensures
        projected_type(p, function, f, start, projections, count) == projected_type(
            q,
            function,
            g,
            start,
            projections,
            count,
        ),
    decreases count,
{
    if count > 0 {
        let before = (count - 1) as nat;
        lemma_projected(p, q, function, f, g, start, projections, before);
        if let Ok(current) = projected_type(p, function, f, start, projections, before) {
            lemma_projection(p, q, function, f, g, current, projections[before as int]);
        }
    }
}

proof fn lemma_place(
    p: &Program,
    q: &Program,
    function: Option<FunctionId>,
    f: &Function,
    g: &Function,
    place: PlaceView,
)
    requires
        alike(p, q),
        alike_functions(f, g),
    ensures
        place_type(p, function, f, place) == place_type(q, function, g, place),
{
    lemma_header(f, g);
    if let Ok(local) = local_at(f, place.local) {
        lemma_projected(p, q, function, f, g, local.ty, place.projections, place.projections.len());
    }
}

proof fn lemma_operand(
    p: &Program,
    q: &Program,
    function: Option<FunctionId>,
    f: &Function,
    g: &Function,
    a: &Operand,
    b: &Operand,
)
    requires
        alike(p, q),
        alike_functions(f, g),
        a@ == b@,
    ensures
        operand_type(p, function, f, a) == operand_type(q, function, g, b),
        forall|expected: TypeId, description: Seq<char>| #[trigger] operand_expected(p, function, f, a, expected, description) == operand_expected(q, function, g, b, expected, description),
{
    match a {
        Operand::Copy(place) => {
            lemma_place(p, q, function, f, g, place@);
        },
        Operand::Constant(constant) => {
            lemma_type(p, q, constant.ty);
        },
    }
}

proof fn lemma_operands_expected(
    p: &Program,
    q: &Program,
    function: Option<FunctionId>,
    f: &Function,
    g: &Function,
    a: Seq<Operand>,
    b: Seq<Operand>,
    expected: Seq<TypeId>,
    from: int,
    description: Seq<char>,
)
    requires
        alike(p, q),
        alike_functions(f, g),
        operand_views(a) == operand_views(b),
        0 <= from,
    ensures
        operands_expected(p, function, f, a, expected, from, description) == operands_expected(
            q,
            function,
            g,
            b,
            expected,
            from,
            description,
        ),
    decreases a.len() - from,
{
    lemma_operands(a, b);
    if from < a.len() && from < expected.len() {
        lemma_operand(p, q, function, f, g, &a[from], &b[from]);
        lemma_operands_expected(p, q, function, f, g, a, b, expected, from + 1, description);
    }
}

proof fn lemma_all_expected(
    p: &Program,
    q: &Program,
    function: Option<FunctionId>,
    f: &Function,
    g: &Function,
    a: Seq<Operand>,
    b: Seq<Operand>,
    expected: TypeId,
    from: int,
    description: Seq<char>,
)
    requires
        alike(p, q),
        alike_functions(f, g),
        operand_views(a) == operand_views(b),
        0 <= from,
    ensures
        all_expected(p, function, f, a, expected, from, description) == all_expected(
            q,
            function,
            g,
            b,
            expected,
            from,
            description,
        ),
    decreases a.len() - from,
{
    lemma_operands(a, b);
    if from < a.len() {
        lemma_operand(p, q, function, f, g, &a[from], &b[from]);
        lemma_all_expected(p, q, function, f, g, a, b, expected, from + 1, description);
    }
}

proof fn lemma_results(
    p: &Program,
    q: &Program,
    source: TypeId,
    other: TypeId,
)
    requires
        alike(p, q),
    ensures
        forall|conversion: NumericConversion| #[trigger] conversion_result(p, conversion, source) == conversion_result(q, conversion, source),
        forall|operator: UnaryOperator| #[trigger] unary_result(p, operator, source) == unary_result(q, operator, source),
        forall|operator: BinaryOperator, bool_type: TypeId, int_type: TypeId| #[trigger] binary_result(p, operator, source, other, bool_type, int_type) == binary_result(q, operator, source, other, bool_type, int_type),
{
    lemma_tables(p, q);
    lemma_type(p, q, source);
    lemma_type(p, q, other);
    lemma_comparable(p, q, source, seq![]);
}

pub proof fn lemma_fields(a: Seq<(FieldId, Operand)>, b: Seq<(FieldId, Operand)>)
    requires
        field_views(a) == field_views(b),
    ensures
        a.len() == b.len(),
        forall|i: int| 0 <= i < a.len() ==> (#[trigger] a[i]).0 == b[i].0 && a[i].1@ == b[i].1@,
{
    assert(field_views(a).len() == a.len());
    assert(field_views(b).len() == b.len());
    assert forall|i: int| 0 <= i < a.len() implies (#[trigger] a[i]).0 == b[i].0 && a[i].1@ == b[i].1@ by {
        assert(field_views(a)[i] == (a[i].0, a[i].1@));
        assert(field_views(b)[i] == (b[i].0, b[i].1@));
    }
}

proof fn lemma_struct_fields(
    p: &Program,
    q: &Program,
    function: Option<FunctionId>,
    f: &Function,
    g: &Function,
    left: Seq<StructField>,
    right: Seq<StructField>,
    a: Seq<(FieldId, Operand)>,
    b: Seq<(FieldId, Operand)>,
    from: int,
)
    requires
        alike(p, q),
        alike_functions(f, g),
        left.len() == right.len(),
        forall|i: int| 0 <= i < left.len() ==> (#[trigger] left[i]).ty == right[i].ty,
        field_views(a) == field_views(b),
        0 <= from,
    ensures
        struct_fields_check(p, function, f, left, a, from) == struct_fields_check(q, function, g, right, b, from),
    decreases a.len() - from,
{
    lemma_fields(a, b);
    if from < a.len() {
        let field = a[from].0;
        assert(b[from].0 == field);
        if field_before(a, from, field) {
            let i = choose|i: int| 0 <= i < from && (#[trigger] a[i]).0 == field;
            assert(b[i].0 == field);
        }
        if field_before(b, from, field) {
            let i = choose|i: int| 0 <= i < from && (#[trigger] b[i]).0 == field;
            assert(a[i].0 == field);
        }
        lemma_operand(p, q, function, f, g, &a[from].1, &b[from].1);
        lemma_struct_fields(p, q, function, f, g, left, right, a, b, from + 1);
    }
}

proof fn lemma_entries(
    p: &Program,
    q: &Program,
    function: Option<FunctionId>,
    f: &Function,
    g: &Function,
    a: Seq<(Operand, Operand)>,
    b: Seq<(Operand, Operand)>,
    key: TypeId,
    value: TypeId,
    from: int,
)
    requires
        alike(p, q),
        alike_functions(f, g),
        entry_views(a) == entry_views(b),
        0 <= from,
    ensures
        entries_check(p, function, f, a, key, value, from) == entries_check(q, function, g, b, key, value, from),
    decreases a.len() - from,
{
    assert(entry_views(a).len() == a.len());
    assert(entry_views(b).len() == b.len());
    if from < a.len() {
        assert(entry_views(a)[from] == (a[from].0@, a[from].1@));
        assert(entry_views(b)[from] == (b[from].0@, b[from].1@));
        lemma_operand(p, q, function, f, g, &a[from].0, &b[from].0);
        lemma_operand(p, q, function, f, g, &a[from].1, &b[from].1);
        lemma_entries(p, q, function, f, g, a, b, key, value, from + 1);
    }
}

proof fn lemma_aggregate(
    p: &Program,
    q: &Program,
    function: Option<FunctionId>,
    f: &Function,
    g: &Function,
    a: &Aggregate,
    b: &Aggregate,
)
    requires
        alike(p, q),
        alike_functions(f, g),
        aggregate_view(*a) == aggregate_view(*b),
    ensures
        aggregate_type(p, function, f, a) == aggregate_type(q, function, g, b),
{
    lemma_tables(p, q);
    match a {
        Aggregate::Struct { definition, fields } => {
            let others = b->fields;
            lemma_fields(fields@, others@);
            lemma_definition(p, q, *definition);
            if definition.0 < p.definitions@.len() {
                let left = p.definitions@[definition.0 as int].layout;
                let right = q.definitions@[definition.0 as int].layout;
                lemma_layout(left, right);
                lemma_layout(right, left);
                if let DefinitionLayout::Struct(layout) = left {
                    lemma_struct_fields(p, q, function, f, g, layout@, right->Struct_0@, fields@, others@, 0);
                }
            }
        },
        Aggregate::Tuple { definition, elements } => {
            let others = b->Tuple_elements;
            lemma_operands(elements@, others@);
            lemma_definition(p, q, *definition);
            if definition.0 < p.definitions@.len() {
                let left = p.definitions@[definition.0 as int].layout;
                let right = q.definitions@[definition.0 as int].layout;
                lemma_layout(left, right);
                lemma_layout(right, left);
                if let DefinitionLayout::Tuple(layout) = left {
                    lemma_operands_expected(p, q, function, f, g, elements@, others@, layout@, 0, "tuple field"@);
                }
            }
        },
        Aggregate::List { ty, elements } => {
            let others = b->List_elements;
            lemma_type(p, q, *ty);
            if let Ok(Type::List(element)) = type_at(p, *ty) {
                lemma_all_expected(p, q, function, f, g, elements@, others@, element, 0, "list element"@);
            }
        },
        Aggregate::Mapping { ty, entries } => {
            let others = b->entries;
            lemma_type(p, q, *ty);
            if let Ok(Type::Mapping { key, value }) = type_at(p, *ty) {
                lemma_entries(p, q, function, f, g, entries@, others@, key, value, 0);
            }
        },
    }
}

proof fn lemma_builtin(
    p: &Program,
    q: &Program,
    function: Option<FunctionId>,
    f: &Function,
    g: &Function,
    destination: LocalId,
    method: BuiltinMethod,
    a: &Operand,
    b: &Operand,
    left: Seq<Operand>,
    right: Seq<Operand>,
    failure: Option<FailureSiteId>,
)
    requires
        alike(p, q),
        alike_functions(f, g),
        a@ == b@,
        operand_views(left) == operand_views(right),
    ensures
        builtin_check(p, function, f, destination, method, a, left, failure) == builtin_check(
            q,
            function,
            g,
            destination,
            method,
            b,
            right,
            failure,
        ),
{
    lemma_tables(p, q);
    lemma_header(f, g);
    lemma_operand(p, q, function, f, g, a, b);
    lemma_operands(left, right);
    if left.len() == 1 {
        lemma_operand(p, q, function, f, g, &left[0], &right[0]);
    }
    if let Ok(ty) = operand_type(p, function, f, a) {
        lemma_type(p, q, ty);
    }
}

proof fn lemma_runtime(
    p: &Program,
    q: &Program,
    function: Option<FunctionId>,
    f: &Function,
    g: &Function,
    a: &RuntimeCheck,
    b: &RuntimeCheck,
)
    requires
        alike(p, q),
        alike_functions(f, g),
        check_view(*a) == check_view(*b),
    ensures
        runtime_check(p, function, f, a) == runtime_check(q, function, g, b),
        check_site(a) == check_site(b),
{
    lemma_tables(p, q);
    assert(check_failures(a) == check_failures(b));
    match (a, b) {
        (
            RuntimeCheck::IntegerOverflow { left: l, right: r, .. },
            RuntimeCheck::IntegerOverflow { left: m, right: s, .. },
        ) => {
            lemma_operand(p, q, function, f, g, l, m);
            lemma_operand(p, q, function, f, g, r, s);
        },
        (RuntimeCheck::IntegerNegation { operand: l, .. }, RuntimeCheck::IntegerNegation { operand: m, .. }) => {
            lemma_operand(p, q, function, f, g, l, m);
        },
        (RuntimeCheck::Division { left: l, right: r, .. }, RuntimeCheck::Division { left: m, right: s, .. }) => {
            lemma_operand(p, q, function, f, g, l, m);
            lemma_operand(p, q, function, f, g, r, s);
            if let Ok(ty) = operand_type(p, function, f, l) {
                lemma_type(p, q, ty);
            }
        },
        (RuntimeCheck::Remainder { left: l, right: r, .. }, RuntimeCheck::Remainder { left: m, right: s, .. }) => {
            lemma_operand(p, q, function, f, g, l, m);
            lemma_operand(p, q, function, f, g, r, s);
        },
        (RuntimeCheck::ShiftRange { amount: l, .. }, RuntimeCheck::ShiftRange { amount: m, .. }) => {
            lemma_operand(p, q, function, f, g, l, m);
        },
        (RuntimeCheck::FiniteFloat { operand: l, .. }, RuntimeCheck::FiniteFloat { operand: m, .. }) => {
            lemma_operand(p, q, function, f, g, l, m);
        },
        (RuntimeCheck::NumericConversion { operand: l, .. }, RuntimeCheck::NumericConversion { operand: m, .. }) => {
            lemma_operand(p, q, function, f, g, l, m);
            if let Ok(ty) = operand_type(p, function, f, l) {
                lemma_results(p, q, ty, ty);
            }
        },
        (RuntimeCheck::IterationUnlocked { receiver: l, .. }, RuntimeCheck::IterationUnlocked { receiver: m, .. }) => {
            lemma_operand(p, q, function, f, g, l, m);
            if let Ok(ty) = operand_type(p, function, f, l) {
                lemma_type(p, q, ty);
            }
        },
        _ => {},
    }
}

proof fn lemma_arguments(
    p: &Program,
    q: &Program,
    function: Option<FunctionId>,
    f: &Function,
    g: &Function,
    callee: &Function,
    other: &Function,
    a: Seq<Operand>,
    b: Seq<Operand>,
    from: int,
)
    requires
        alike(p, q),
        alike_functions(f, g),
        alike_functions(callee, other),
        operand_views(a) == operand_views(b),
        0 <= from,
        a.len() == callee.parameters@.len(),
    ensures
        arguments_check(p, function, f, callee, a, from) == arguments_check(q, function, g, other, b, from),
    decreases a.len() - from,
{
    lemma_operands(a, b);
    lemma_header(callee, other);
    if from < a.len() {
        lemma_operand(p, q, function, f, g, &a[from], &b[from]);
        lemma_arguments(p, q, function, f, g, callee, other, a, b, from + 1);
    }
}

proof fn lemma_intrinsic(
    p: &Program,
    q: &Program,
    function: Option<FunctionId>,
    f: &Function,
    g: &Function,
    intrinsic: Intrinsic,
    a: Seq<Operand>,
    b: Seq<Operand>,
)
    requires
        alike(p, q),
        alike_functions(f, g),
        operand_views(a) == operand_views(b),
    ensures
        intrinsic_arguments(p, function, f, intrinsic, a) == intrinsic_arguments(q, function, g, intrinsic, b),
{
    lemma_operands(a, b);
    if a.len() == 1 {
        lemma_operand(p, q, function, f, g, &a[0], &b[0]);
        if let Ok(ty) = operand_type(p, function, f, &a[0]) {
            lemma_printable(p, q, ty, seq![], seq![]);
        }
    }
}

proof fn lemma_iterable(
    p: &Program,
    q: &Program,
    function: Option<FunctionId>,
    f: &Function,
    g: &Function,
    a: &Operand,
    b: &Operand,
)
    requires
        alike(p, q),
        alike_functions(f, g),
        a@ == b@,
    ensures
        iterable_check(p, function, f, a) == iterable_check(q, function, g, b),
{
    lemma_operand(p, q, function, f, g, a, b);
    if let Ok(ty) = operand_type(p, function, f, a) {
        lemma_type(p, q, ty);
    }
}

#[verifier::rlimit(40)]
proof fn lemma_operation(
    p: &Program,
    q: &Program,
    function: Option<FunctionId>,
    f: &Function,
    g: &Function,
    a: &Operation,
    b: &Operation,
)
    requires
        alike(p, q),
        alike_functions(f, g),
        operation_view(a.kind) == operation_view(b.kind),
        a.location == b.location,
    ensures
        operation_check(p, function, f, a) == operation_check(q, function, g, b),
{
    lemma_tables(p, q);
    lemma_header(f, g);
    match (&a.kind, &b.kind) {
        (OperationKind::Copy { operand: l, .. }, OperationKind::Copy { operand: m, .. }) => {
            lemma_operand(p, q, function, f, g, l, m);
        },
        (OperationKind::Unary { operand: l, .. }, OperationKind::Unary { operand: m, .. }) => {
            lemma_operand(p, q, function, f, g, l, m);
            if let Ok(ty) = operand_type(p, function, f, l) {
                lemma_results(p, q, ty, ty);
            }
        },
        (OperationKind::Binary { left: l, right: r, .. }, OperationKind::Binary { left: m, right: s, .. }) => {
            lemma_operand(p, q, function, f, g, l, m);
            lemma_operand(p, q, function, f, g, r, s);
            if let (Ok(left), Ok(right)) = (operand_type(p, function, f, l), operand_type(p, function, f, r)) {
                lemma_results(p, q, left, right);
            }
        },
        (OperationKind::Convert { operand: l, .. }, OperationKind::Convert { operand: m, .. }) => {
            lemma_operand(p, q, function, f, g, l, m);
            if let Ok(ty) = operand_type(p, function, f, l) {
                lemma_results(p, q, ty, ty);
            }
        },
        (OperationKind::Aggregate { aggregate: l, .. }, OperationKind::Aggregate { aggregate: m, .. }) => {
            lemma_aggregate(p, q, function, f, g, l, m);
        },
        (
            OperationKind::UnionInject { union_type, payload: l, .. },
            OperationKind::UnionInject { payload: m, .. },
        ) => {
            lemma_operand(p, q, function, f, g, l, m);
            lemma_alternatives_of(p, q, *union_type);
        },
        (OperationKind::UnionTest { union: l, .. }, OperationKind::UnionTest { union: m, .. }) => {
            lemma_operand(p, q, function, f, g, l, m);
            if let Ok(ty) = operand_type(p, function, f, l) {
                lemma_alternatives_of(p, q, ty);
            }
        },
        (OperationKind::UnionPayload { union: l, .. }, OperationKind::UnionPayload { union: m, .. }) => {
            lemma_operand(p, q, function, f, g, l, m);
            if let Ok(ty) = operand_type(p, function, f, l) {
                lemma_alternatives_of(p, q, ty);
            }
        },
        (
            OperationKind::StringIndex { string: l, index: r, .. },
            OperationKind::StringIndex { string: m, index: s, .. },
        ) => {
            lemma_operand(p, q, function, f, g, l, m);
            lemma_operand(p, q, function, f, g, r, s);
        },
        (OperationKind::Assign { destination, value: l }, OperationKind::Assign { value: m, .. }) => {
            lemma_operand(p, q, function, f, g, l, m);
            lemma_place(p, q, function, f, g, destination@);
        },
        (OperationKind::Call { function: called, arguments: l, .. }, OperationKind::Call { arguments: m, .. }) => {
            lemma_operands(l@, m@);
            if called.0 < p.functions@.len() {
                let callee = &p.functions@[called.0 as int];
                let other = &q.functions@[called.0 as int];
                lemma_function(p, q, called.0 as int);
                lemma_header(callee, other);
                if l@.len() == callee.parameters@.len() {
                    lemma_arguments(p, q, function, f, g, callee, other, l@, m@, 0);
                }
            }
        },
        (
            OperationKind::Intrinsic { intrinsic, arguments: l, .. },
            OperationKind::Intrinsic { arguments: m, .. },
        ) => {
            lemma_intrinsic(p, q, function, f, g, *intrinsic, l@, m@);
        },
        (
            OperationKind::Builtin { destination, method, receiver: l, arguments: r, failure },
            OperationKind::Builtin { receiver: m, arguments: s, .. },
        ) => {
            lemma_builtin(p, q, function, f, g, *destination, *method, l, m, r@, s@, *failure);
        },
        (OperationKind::BeginIteration { iterable: l }, OperationKind::BeginIteration { iterable: m }) => {
            lemma_iterable(p, q, function, f, g, l, m);
        },
        (OperationKind::EndIteration { iterable: l }, OperationKind::EndIteration { iterable: m }) => {
            lemma_iterable(p, q, function, f, g, l, m);
        },
        (
            OperationKind::IterationValue { iterable: l, index: r, .. },
            OperationKind::IterationValue { iterable: m, index: s, .. },
        ) => {
            lemma_operand(p, q, function, f, g, l, m);
            lemma_operand(p, q, function, f, g, r, s);
            if let Ok(ty) = operand_type(p, function, f, l) {
                lemma_type(p, q, ty);
            }
        },
        (OperationKind::Check(l), OperationKind::Check(m)) => {
            lemma_runtime(p, q, function, f, g, l, m);
        },
        _ => {},
    }
}

proof fn lemma_targets(
    f: &Function,
    g: &Function,
    alternatives: nat,
    targets: Seq<(AlternativeId, BlockId)>,
    from: int,
)
    requires
        alike_functions(f, g),
        0 <= from,
    ensures
        targets_check(f, alternatives, targets, from) == targets_check(g, alternatives, targets, from),
    decreases targets.len() - from,
{
    lemma_header(f, g);
    if from < targets.len() {
        lemma_targets(f, g, alternatives, targets, from + 1);
    }
}

proof fn lemma_terminator(
    p: &Program,
    q: &Program,
    function: Option<FunctionId>,
    f: &Function,
    g: &Function,
    a: &Terminator,
    b: &Terminator,
)
    requires
        alike(p, q),
        alike_functions(f, g),
        terminator_view(a.kind) == terminator_view(b.kind),
        a.location == b.location,
    ensures
        terminator_check(p, function, f, a) == terminator_check(q, function, g, b),
{
    lemma_tables(p, q);
    lemma_header(f, g);
    match (&a.kind, &b.kind) {
        (TerminatorKind::Branch { condition: l, .. }, TerminatorKind::Branch { condition: m, .. }) => {
            lemma_operand(p, q, function, f, g, l, m);
        },
        (TerminatorKind::Switch { union: l, targets }, TerminatorKind::Switch { union: m, targets: others }) => {
            lemma_operand(p, q, function, f, g, l, m);
            assert(targets@ == others@);
            if let Ok(ty) = operand_type(p, function, f, l) {
                lemma_alternatives_of(p, q, ty);
                if let Ok(left) = alternatives_of(p, ty) {
                    lemma_alternatives(left, alternatives_of(q, ty)->Ok_0);
                    lemma_targets(f, g, left.len(), targets@, 0);
                }
            }
        },
        (TerminatorKind::Return(l), TerminatorKind::Return(m)) => {
            lemma_operand(p, q, function, f, g, l, m);
        },
        (TerminatorKind::Panic { message: l, .. }, TerminatorKind::Panic { message: m, .. }) => {
            lemma_operand(p, q, function, f, g, l, m);
        },
        (TerminatorKind::ErrorPanic { payload: l, .. }, TerminatorKind::ErrorPanic { payload: m, .. }) => {
            lemma_operand(p, q, function, f, g, l, m);
            if let Ok(ty) = operand_type(p, function, f, l) {
                lemma_type(p, q, ty);
            }
        },
        _ => {},
    }
}

/// Operations with the same contents.
pub open spec fn alike_operations(a: Seq<Operation>, b: Seq<Operation>) -> bool {
    operation_views(a) == operation_views(b)
}

pub proof fn lemma_kind(a: Seq<Operation>, b: Seq<Operation>, index: int)
    requires
        alike_operations(a, b),
    ensures
        a.len() == b.len(),
        0 <= index < a.len() ==> operation_view(a[index].kind) == operation_view(b[index].kind) && a[index].location
            == b[index].location,
        kind_at(a, index) is None <==> kind_at(b, index) is None,
        kind_at(a, index) is Some ==> operation_view(kind_at(a, index)->0) == operation_view(kind_at(b, index)->0),
{
    assert(operation_views(a).len() == a.len());
    assert(operation_views(b).len() == b.len());
    if 0 <= index < a.len() {
        assert(operation_views(a)[index] == (operation_view(a[index].kind), a[index].location));
        assert(operation_views(b)[index] == (operation_view(b[index].kind), b[index].location));
    }
}

proof fn lemma_prechecked(
    a: Seq<Operation>,
    b: Seq<Operation>,
    index: int,
    operator: BinaryOperator,
    left: OperandView,
    right: OperandView,
    ty: TypeId,
    int_type: TypeId,
    float_type: TypeId,
)
    requires
        alike_operations(a, b),
    ensures
        prechecked(a, index, operator, left, right, ty, int_type, float_type) == prechecked(
            b,
            index,
            operator,
            left,
            right,
            ty,
            int_type,
            float_type,
        ),
{
    lemma_kind(a, b, index - 1);
    lemma_kind(a, b, index - 2);
}

proof fn lemma_consumed(
    a: Seq<Operation>,
    b: Seq<Operation>,
    index: int,
    left: &RuntimeCheck,
    right: &RuntimeCheck,
)
    requires
        alike_operations(a, b),
        check_view(*left) == check_view(*right),
    ensures
        consumed(a, index, left) == consumed(b, index, right),
{
    lemma_kind(a, b, index + 1);
    lemma_kind(a, b, index - 1);
}

#[verifier::rlimit(40)]
proof fn lemma_adjacent(
    p: &Program,
    q: &Program,
    function: Option<FunctionId>,
    f: &Function,
    g: &Function,
    a: Seq<Operation>,
    b: Seq<Operation>,
    index: int,
    int_type: TypeId,
    float_type: TypeId,
)
    requires
        alike(p, q),
        alike_functions(f, g),
        alike_operations(a, b),
        0 <= index < a.len(),
    ensures
        adjacent_check(p, function, f, a, index, int_type, float_type) == adjacent_check(
            q,
            function,
            g,
            b,
            index,
            int_type,
            float_type,
        ),
{
    lemma_tables(p, q);
    lemma_kind(a, b, index);
    lemma_kind(a, b, index - 1);
    lemma_kind(a, b, index + 1);
    match (&a[index].kind, &b[index].kind) {
        (OperationKind::Unary { operand: l, .. }, OperationKind::Unary { operand: m, .. }) => {
            lemma_operand(p, q, function, f, g, l, m);
        },
        (
            OperationKind::Binary { destination, operator, left: l, right: r },
            OperationKind::Binary { left: m, .. },
        ) => {
            lemma_operand(p, q, function, f, g, l, m);
            if let Ok(ty) = operand_type(p, function, f, l) {
                lemma_prechecked(a, b, index, *operator, l@, r@, ty, int_type, float_type);
            }
            assert(forall|expected: FailureOperation| #[trigger]
                postchecked(p, function, a, index, *destination, expected) == postchecked(
                    q,
                    function,
                    b,
                    index,
                    *destination,
                    expected,
                ));
        },
        (OperationKind::Check(l), OperationKind::Check(m)) => {
            lemma_consumed(a, b, index, l, m);
        },
        _ => {},
    }
}

proof fn lemma_neighbours(
    p: &Program,
    q: &Program,
    function: Option<FunctionId>,
    f: &Function,
    g: &Function,
    a: Seq<Operation>,
    b: Seq<Operation>,
    from: int,
    int_type: TypeId,
    float_type: TypeId,
)
    requires
        alike(p, q),
        alike_functions(f, g),
        alike_operations(a, b),
        0 <= from,
    ensures
        neighbours_check(p, function, f, a, from, int_type, float_type) == neighbours_check(
            q,
            function,
            g,
            b,
            from,
            int_type,
            float_type,
        ),
    decreases a.len() - from,
{
    lemma_kind(a, b, from);
    if from < a.len() {
        lemma_adjacent(p, q, function, f, g, a, b, from, int_type, float_type);
        lemma_neighbours(p, q, function, f, g, a, b, from + 1, int_type, float_type);
    }
}

proof fn lemma_each_alternative(
    p: &Program,
    q: &Program,
    owner: Seq<char>,
    a: Seq<UnionAlternative>,
    b: Seq<UnionAlternative>,
    from: int,
)
    requires
        alike(p, q),
        alternative_views(a) == alternative_views(b),
        0 <= from,
    ensures
        each_alternative_check(p, owner, a, from) == each_alternative_check(q, owner, b, from),
        alternatives_check(p, owner, a) == alternatives_check(q, owner, b) || from != 0,
    decreases a.len() - from,
{
    lemma_alternatives(a, b);
    if from < a.len() {
        assert(a[from]@ == b[from]@);
        lemma_type(p, q, a[from].payload);
        lemma_earlier(a, b, from);
        lemma_earlier(b, a, from);
        assert(alternative_check(p, owner, a, from) == alternative_check(q, owner, b, from));
        lemma_each_alternative(p, q, owner, a, b, from + 1);
    }
}

proof fn lemma_earlier(a: Seq<UnionAlternative>, b: Seq<UnionAlternative>, count: int)
    requires
        alternative_views(a) == alternative_views(b),
        0 <= count <= a.len(),
    ensures
        forall|tagged: bool| #[trigger] mixed_before(a, count, tagged) ==> mixed_before(b, count, tagged),
        forall|constructor: ConstructorView| #[trigger]
            alternative_before(a, count, constructor) ==> alternative_before(b, count, constructor),
        forall|payload: TypeId| #[trigger] payload_before(a, count, payload) ==> payload_before(b, count, payload),
{
    lemma_alternatives(a, b);
    assert forall|tagged: bool| #[trigger] mixed_before(a, count, tagged) implies mixed_before(b, count, tagged) by {
        let i = choose|i: int|
            0 <= i < count && match (#[trigger] a[i]).constructor {
                AlternativeConstructor::Untagged => tagged,
                AlternativeConstructor::Tagged(_) => !tagged,
                AlternativeConstructor::Error => false,
            };
        assert(b[i].constructor@ == a[i].constructor@);
    }
    assert forall|constructor: ConstructorView| #[trigger]
        alternative_before(a, count, constructor) implies alternative_before(b, count, constructor) by {
        let i = choose|i: int| 0 <= i < count && (#[trigger] a[i]).constructor@ == constructor;
        assert(b[i].constructor@ == constructor);
    }
    assert forall|payload: TypeId| #[trigger] payload_before(a, count, payload) implies payload_before(
        b,
        count,
        payload,
    ) by {
        let i = choose|i: int|
            0 <= i < count && (#[trigger] a[i]).constructor is Untagged && a[i].payload == payload;
        assert(b[i].constructor@ == a[i].constructor@);
    }
}

proof fn lemma_storage(p: &Program, q: &Program, ty: TypeId, storage: MemberStorage)
    requires
        alike(p, q),
    ensures
        storage_is_legal(p, ty, storage) == storage_is_legal(q, ty, storage),
{
    lemma_type(p, q, ty);
    if ty.0 < p.types@.len() {
        if let Type::Nominal(definition) = p.types@[ty.0 as int] {
            lemma_definition(p, q, definition);
            if definition.0 < p.definitions@.len() {
                let left = p.definitions@[definition.0 as int].layout;
                let right = q.definitions@[definition.0 as int].layout;
                lemma_layout(left, right);
                lemma_layout(right, left);
            }
        }
    }
}

proof fn lemma_layout_fields(
    p: &Program,
    q: &Program,
    id: DefinitionId,
    a: Seq<StructField>,
    b: Seq<StructField>,
    from: int,
)
    requires
        alike(p, q),
        a.len() == b.len(),
        forall|i: int|
            0 <= i < a.len() ==> (#[trigger] a[i]).name@ == b[i].name@ && a[i].ty == b[i].ty && a[i].storage
                == b[i].storage,
        0 <= from,
    ensures
        layout_fields_check(p, id, a, from) == layout_fields_check(q, id, b, from),
    decreases a.len() - from,
{
    if from < a.len() {
        let name = a[from].name@;
        assert(b[from].name@ == name);
        if name_before(a, from, name) {
            let i = choose|i: int| 0 <= i < from && (#[trigger] a[i]).name@ == name;
            assert(b[i].name@ == name);
        }
        if name_before(b, from, name) {
            let i = choose|i: int| 0 <= i < from && (#[trigger] b[i]).name@ == name;
            assert(a[i].name@ == name);
        }
        lemma_type(p, q, a[from].ty);
        lemma_storage(p, q, a[from].ty, a[from].storage);
        lemma_layout_fields(p, q, id, a, b, from + 1);
    }
}

proof fn lemma_layout_types(p: &Program, q: &Program, fields: Seq<TypeId>, from: int)
    requires
        alike(p, q),
        0 <= from,
    ensures
        layout_types_check(p, fields, from) == layout_types_check(q, fields, from),
    decreases fields.len() - from,
{
    if from < fields.len() {
        lemma_type(p, q, fields[from]);
        lemma_layout_types(p, q, fields, from + 1);
    }
}

proof fn lemma_definitions(p: &Program, q: &Program, from: int)
    requires
        alike(p, q),
        0 <= from,
    ensures
        definitions_check(p, from) == definitions_check(q, from),
    decreases p.definitions@.len() - from,
{
    lemma_tables(p, q);
    if from < p.definitions@.len() {
        let id = DefinitionId(from as usize);
        assert(id.0 == from) by {
            assert(p.definitions.len() == p.definitions@.len());
        }
        lemma_definition(p, q, id);
        let name = p.definitions@[from].name@;
        if definition_name_before(p.definitions@, from, name) {
            let i = choose|i: int| 0 <= i < from && (#[trigger] p.definitions@[i]).name@ == name;
            lemma_definition(p, q, DefinitionId(i as usize));
            assert(q.definitions@[i].name@ == name);
        }
        if definition_name_before(q.definitions@, from, name) {
            let i = choose|i: int| 0 <= i < from && (#[trigger] q.definitions@[i]).name@ == name;
            lemma_definition(p, q, DefinitionId(i as usize));
            assert(p.definitions@[i].name@ == name);
        }
        let left = p.definitions@[from].layout;
        let right = q.definitions@[from].layout;
        lemma_layout(left, right);
        lemma_layout(right, left);
        match left {
            DefinitionLayout::Struct(fields) => {
                lemma_layout_fields(p, q, id, fields@, right->Struct_0@, 0);
            },
            DefinitionLayout::Tuple(fields) => {
                lemma_layout_types(p, q, fields@, 0);
            },
            DefinitionLayout::Union(alternatives) => {
                lemma_each_alternative(p, q, id.text(), alternatives@, right->Union_0@, 0);
            },
        }
        assert(definition_check(p, id) == definition_check(q, id));
        lemma_definitions(p, q, from + 1);
    }
}

proof fn lemma_types(p: &Program, q: &Program, from: int)
    requires
        alike(p, q),
        0 <= from,
    ensures
        types_check(p, from) == types_check(q, from),
    decreases p.types@.len() - from,
{
    lemma_tables(p, q);
    if from < p.types@.len() {
        let id = TypeId(from as usize);
        assert(id.0 == from) by {
            assert(p.types.len() == p.types@.len());
        }
        lemma_type(p, q, id);
        match &p.types@[from] {
            Type::List(element) => {
                lemma_type(p, q, *element);
            },
            Type::Mapping { key, value } => {
                lemma_type(p, q, *key);
                lemma_type(p, q, *value);
            },
            Type::Nominal(definition) => {
                lemma_definition(p, q, *definition);
            },
            Type::Union(alternatives) => {
                lemma_each_alternative(p, q, id.text(), alternatives@, q.types@[from]->Union_0@, 0);
            },
            _ => {},
        }
        assert(type_check(p, id) == type_check(q, id));
        assert(type_views(p.types@.take(from)) =~= type_views(p.types@).take(from));
        assert(type_views(q.types@.take(from)) =~= type_views(q.types@).take(from));
        lemma_types(p, q, from + 1);
    }
}

proof fn lemma_locations(p: &Program, q: &Program, from: int)
    requires
        alike(p, q),
        0 <= from,
    ensures
        locations_check(p, from) == locations_check(q, from),
    decreases p.locations@.len() - from,
{
    lemma_tables(p, q);
    if from < p.locations@.len() {
        lemma_locations(p, q, from + 1);
    }
}

proof fn lemma_failures(p: &Program, q: &Program, from: int)
    requires
        alike(p, q),
        0 <= from,
    ensures
        failures_check(p, from) == failures_check(q, from),
    decreases p.failure_sites@.len() - from,
{
    lemma_tables(p, q);
    if from < p.failure_sites@.len() {
        lemma_failures(p, q, from + 1);
    }
}

proof fn lemma_nominals(p: &Program, q: &Program, from: int)
    requires
        alike(p, q),
        0 <= from,
    ensures
        nominals_check(p, from) == nominals_check(q, from),
    decreases p.definitions@.len() - from,
{
    lemma_tables(p, q);
    if from < p.definitions@.len() {
        lemma_nominals(p, q, from + 1);
    }
}

proof fn lemma_parameters(f: &Function, g: &Function, from: int)
    requires
        alike_functions(f, g),
        0 <= from,
    ensures
        parameters_check(f, from) == parameters_check(g, from),
    decreases f.parameters@.len() - from,
{
    lemma_header(f, g);
    if from < f.parameters@.len() {
        lemma_parameters(f, g, from + 1);
    }
}

proof fn lemma_locals(p: &Program, q: &Program, f: &Function, g: &Function, from: int)
    requires
        alike(p, q),
        alike_functions(f, g),
        0 <= from,
    ensures
        locals_check(p, f, from) == locals_check(q, g, from),
    decreases f.locals@.len() - from,
{
    lemma_header(f, g);
    if from < f.locals@.len() {
        lemma_type(p, q, f.locals@[from].ty);
        lemma_locals(p, q, f, g, from + 1);
    }
}

pub proof fn lemma_block_contents(a: &BasicBlock, b: &BasicBlock)
    requires
        block_view(*a) == block_view(*b),
    ensures
        alike_operations(a.operations@, b.operations@),
        a.operations@.len() == b.operations@.len(),
        a.terminator is None <==> b.terminator is None,
        a.terminator matches Some(left) ==> terminator_view(left.kind) == terminator_view(b.terminator->0.kind)
            && left.location == b.terminator->0.location,
{
    assert(block_view(*a).operations == block_view(*b).operations);
    assert(block_view(*a).terminator == block_view(*b).terminator);
    lemma_kind(a.operations@, b.operations@, 0);
}

proof fn lemma_operations(
    p: &Program,
    q: &Program,
    id: FunctionId,
    f: &Function,
    g: &Function,
    block: int,
    from: int,
)
    requires
        alike(p, q),
        alike_functions(f, g),
        0 <= block < f.blocks@.len(),
        0 <= from,
    ensures
        operations_check(p, id, f, block, from) == operations_check(q, id, g, block, from),
    decreases f.blocks@[block].operations@.len() - from,
{
    lemma_tables(p, q);
    lemma_header(f, g);
    let a = f.blocks@[block].operations@;
    let b = g.blocks@[block].operations@;
    lemma_block_contents(&f.blocks@[block], &g.blocks@[block]);
    if from < a.len() {
        lemma_kind(a, b, from);
        lemma_operation(p, q, Some(id), f, g, &a[from], &b[from]);
        lemma_operations(p, q, id, f, g, block, from + 1);
    }
}

proof fn lemma_block(p: &Program, q: &Program, id: FunctionId, f: &Function, g: &Function, block: int)
    requires
        alike(p, q),
        alike_functions(f, g),
        0 <= block < f.blocks@.len(),
    ensures
        basic_block_check(p, id, f, block) == basic_block_check(q, id, g, block),
{
    lemma_tables(p, q);
    lemma_header(f, g);
    let a = &f.blocks@[block];
    let b = &g.blocks@[block];
    lemma_block_contents(a, b);
    lemma_operations(p, q, id, f, g, block, 0);
    if let (Ok(int_type), Ok(float_type)) = (primitive(p, PrimitiveType::Int), primitive(p, PrimitiveType::Float)) {
        lemma_neighbours(p, q, Some(id), f, g, a.operations@, b.operations@, 0, int_type, float_type);
    }
    assert(sequence_check(p, Some(id), f, a.operations@) == sequence_check(q, Some(id), g, b.operations@));
    if let (Some(left), Some(right)) = (&a.terminator, &b.terminator) {
        lemma_terminator(p, q, Some(id), f, g, left, right);
    }
    assert(ending_check(p, id, f, a) == ending_check(q, id, g, b));
}

proof fn lemma_blocks(p: &Program, q: &Program, id: FunctionId, f: &Function, g: &Function, from: int)
    requires
        alike(p, q),
        alike_functions(f, g),
        0 <= from,
    ensures
        blocks_check(p, id, f, from) == blocks_check(q, id, g, from),
    decreases f.blocks@.len() - from,
{
    lemma_header(f, g);
    if from < f.blocks@.len() {
        lemma_block(p, q, id, f, g, from);
        lemma_blocks(p, q, id, f, g, from + 1);
    }
}

proof fn lemma_functions(p: &Program, q: &Program, from: int)
    requires
        alike(p, q),
        0 <= from,
    ensures
        functions_check(p, from) == functions_check(q, from),
    decreases p.functions@.len() - from,
{
    lemma_tables(p, q);
    if from < p.functions@.len() {
        let id = FunctionId(from as usize);
        assert(id.0 == from) by {
            assert(p.functions.len() == p.functions@.len());
        }
        let f = &p.functions@[from];
        let g = &q.functions@[from];
        lemma_function(p, q, from);
        lemma_header(f, g);
        let name = f.name@;
        if function_name_before(p.functions@, from, name) {
            let i = choose|i: int| 0 <= i < from && (#[trigger] p.functions@[i]).name@ == name;
            lemma_function(p, q, i);
            lemma_header(&p.functions@[i], &q.functions@[i]);
            assert(q.functions@[i].name@ == name);
        }
        if function_name_before(q.functions@, from, name) {
            let i = choose|i: int| 0 <= i < from && (#[trigger] q.functions@[i]).name@ == name;
            lemma_function(p, q, i);
            lemma_header(&p.functions@[i], &q.functions@[i]);
            assert(p.functions@[i].name@ == name);
        }
        lemma_type(p, q, f.result);
        lemma_parameters(f, g, 0);
        lemma_locals(p, q, f, g, 0);
        assert(header_check(p, f) == header_check(q, g));
        lemma_blocks(p, q, id, f, g, 0);
        assert(function_check(p, id) == function_check(q, id));
        lemma_functions(p, q, from + 1);
    }
}

/// Programs with the same contents are valid together, or have the same error: how their strings and lists are
/// stored makes no difference.
pub proof fn law_validity_is_of_contents(p: &Program, q: &Program)
    requires
        program_view(*p) == program_view(*q),
    ensures
        program_check(p) == program_check(q),
{
    lemma_tables(p, q);
    lemma_locations(p, q, 0);
    lemma_failures(p, q, 0);
    lemma_types(p, q, 0);
    lemma_definitions(p, q, 0);
    lemma_nominals(p, q, 0);
    assert(tables_check(p) == tables_check(q));
    lemma_functions(p, q, 0);
}

/// The first thing that is wrong with the programs of the given contents.
pub open spec fn contents_check(view: ProgramView) -> Result<(), ErrorView> {
    let program = choose|program: Program| program_view(program) == view;
    program_check(&program)
}

/// What is wrong with contents is what is wrong with any program that has them.
pub proof fn lemma_contents_check(program: &Program)
    ensures
        contents_check(program_view(*program)) == program_check(program),
{
    let view = program_view(*program);
    let chosen = choose|other: Program| program_view(other) == view;
    assert(program_view(chosen) == view);
    law_validity_is_of_contents(&chosen, program);
}

} // verus!
