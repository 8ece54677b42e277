//! Validation of the IR: what a well-formed program is, and the first thing wrong with one that
//! is not.

use crate::ir::{
    Aggregate, AlternativeConstructor, AlternativeId, BasicBlock, BinaryOperator, BlockId, BuiltinMethod,
    ConstantValue, ConstructorView, DefinitionId, DefinitionLayout, FailureOperation, FailureSiteId, FieldId,
    Function, FunctionId, IntegerOperation, Intrinsic, Local, LocalId, LocalOrigin, LocationId, MemberStorage,
    NominalDefinition, NumericConversion, Operand, OperandView, Operation, OperationKind, PlaceView,
    PrimitiveType, Program, Projection, RuntimeCheck, StructField, Terminator, TerminatorKind, Type, TypeId,
    TypeView, UnaryOperator, UnionAlternative, failure_key, failure_keys, type_views,
};
use crate::text::{decimal, push_decimal};
use vstd::prelude::*;
use vstd::string::*;

verus! {

/// A result, or the message that says what is wrong.
pub type Checked<T> = Result<T, Seq<char>>;

/// The second check where the first succeeds.
pub open spec fn both<A, B>(first: Checked<A>, second: Checked<B>) -> Checked<B> {
    match first {
        Ok(_) => second,
        Err(message) => Err(message),
    }
}

pub open spec fn check(condition: bool, message: Seq<char>) -> Checked<()> {
    if condition {
        Ok(())
    } else {
        Err(message)
    }
}

pub open spec fn type_at(p: &Program, id: TypeId) -> Checked<Type> {
    if id.0 < p.types@.len() {
        Ok(p.types@[id.0 as int])
    } else {
        Err("invalid type identity "@ + id.text())
    }
}

pub open spec fn definition_at(p: &Program, id: DefinitionId) -> Checked<NominalDefinition> {
    if id.0 < p.definitions@.len() {
        Ok(p.definitions@[id.0 as int])
    } else {
        Err("invalid definition identity "@ + id.text())
    }
}

pub open spec fn function_at(p: &Program, id: FunctionId) -> Checked<Function> {
    if id.0 < p.functions@.len() {
        Ok(p.functions@[id.0 as int])
    } else {
        Err("invalid function identity "@ + id.text())
    }
}

pub open spec fn local_at(f: &Function, id: LocalId) -> Checked<Local> {
    if id.0 < f.locals@.len() {
        Ok(f.locals@[id.0 as int])
    } else {
        Err("invalid local identity "@ + id.text())
    }
}

pub open spec fn block_check(f: &Function, id: BlockId) -> Checked<()> {
    check(id.0 < f.blocks@.len(), "invalid block identity "@ + id.text())
}

pub open spec fn location_check(p: &Program, id: LocationId) -> Checked<()> {
    check(id.0 < p.locations@.len(), "invalid location identity "@ + id.text())
}

/// The canonical identity of a type without contents.
pub open spec fn canonical(p: &Program, ty: TypeView) -> Checked<TypeId> {
    match p.type_index(ty) {
        Some(index) => Ok(TypeId(index as usize)),
        None => Err("required canonical primitive or unit type is missing"@),
    }
}

pub open spec fn primitive(p: &Program, wanted: PrimitiveType) -> Checked<TypeId> {
    canonical(p, TypeView::Primitive(wanted))
}

pub open spec fn nominal(p: &Program, definition: DefinitionId) -> Checked<TypeId> {
    match p.type_index(TypeView::Nominal(definition)) {
        Some(index) => Ok(TypeId(index as usize)),
        None => Err(definition.text() + " has no canonical nominal type"@),
    }
}

pub open spec fn is_primitive(p: &Program, ty: TypeId, wanted: PrimitiveType) -> bool {
    ty.0 < p.types@.len() && p.types@[ty.0 as int] == Type::Primitive(wanted)
}

pub open spec fn is_numeric(p: &Program, ty: TypeId) -> bool {
    is_primitive(p, ty, PrimitiveType::Int) || is_primitive(p, ty, PrimitiveType::Float)
}

pub open spec fn is_ordered(p: &Program, ty: TypeId) -> bool {
    is_numeric(p, ty) || is_primitive(p, ty, PrimitiveType::Str) || is_primitive(p, ty, PrimitiveType::Char)
}

/// Whether values of one type can be looked for in values of another.
pub open spec fn membership(p: &Program, item: TypeId, container: TypeId) -> bool {
    container.0 < p.types@.len() && (match p.types@[container.0 as int] {
        Type::List(element) => element == item,
        Type::Mapping { key, .. } => key == item,
        _ => false,
    })
}

/// How many of the first `count` definitions are not listed.
pub open spec fn unlisted_definitions(count: nat, listed: Seq<DefinitionId>) -> nat
    decreases count,
{
    if count == 0 {
        0
    } else {
        unlisted_definitions((count - 1) as nat, listed) + if listed.contains(DefinitionId((count - 1) as usize)) {
            0nat
        } else {
            1nat
        }
    }
}

/// How many of the first `count` types are not listed.
pub open spec fn unlisted_types(count: nat, listed: Seq<TypeId>) -> nat
    decreases count,
{
    if count == 0 {
        0
    } else {
        unlisted_types((count - 1) as nat, listed) + if listed.contains(TypeId((count - 1) as usize)) {
            0nat
        } else {
            1nat
        }
    }
}

proof fn lemma_listing_more_definitions(count: nat, listed: Seq<DefinitionId>, one: DefinitionId)
    ensures
        unlisted_definitions(count, listed.push(one)) <= unlisted_definitions(count, listed),
    decreases count,
{
    if count > 0 {
        lemma_listing_more_definitions((count - 1) as nat, listed, one);
        let this = DefinitionId((count - 1) as usize);
        if listed.contains(this) {
            let i = choose|i: int| 0 <= i < listed.len() && listed[i] == this;
            assert(listed.push(one)[i] == this);
        }
    }
}

pub proof fn lemma_listing_definition(count: nat, listed: Seq<DefinitionId>, one: DefinitionId)
    requires
        one.0 < count,
        count <= usize::MAX,
        !listed.contains(one),
    ensures
        unlisted_definitions(count, listed.push(one)) < unlisted_definitions(count, listed),
    decreases count,
{
    lemma_listing_more_definitions((count - 1) as nat, listed, one);
    if one.0 == count - 1 {
        assert(listed.push(one)[listed.len() as int] == one);
    } else {
        lemma_listing_definition((count - 1) as nat, listed, one);
        let this = DefinitionId((count - 1) as usize);
        if listed.contains(this) {
            let i = choose|i: int| 0 <= i < listed.len() && listed[i] == this;
            assert(listed.push(one)[i] == this);
        }
    }
}

proof fn lemma_listing_more_types(count: nat, listed: Seq<TypeId>, one: TypeId)
    ensures
        unlisted_types(count, listed.push(one)) <= unlisted_types(count, listed),
    decreases count,
{
    if count > 0 {
        lemma_listing_more_types((count - 1) as nat, listed, one);
        let this = TypeId((count - 1) as usize);
        if listed.contains(this) {
            let i = choose|i: int| 0 <= i < listed.len() && listed[i] == this;
            assert(listed.push(one)[i] == this);
        }
    }
}

pub proof fn lemma_listing_type(count: nat, listed: Seq<TypeId>, one: TypeId)
    requires
        one.0 < count,
        count <= usize::MAX,
        !listed.contains(one),
    ensures
        unlisted_types(count, listed.push(one)) < unlisted_types(count, listed),
    decreases count,
{
    lemma_listing_more_types((count - 1) as nat, listed, one);
    if one.0 == count - 1 {
        assert(listed.push(one)[listed.len() as int] == one);
    } else {
        lemma_listing_type((count - 1) as nat, listed, one);
        let this = TypeId((count - 1) as usize);
        if listed.contains(this) {
            let i = choose|i: int| 0 <= i < listed.len() && listed[i] == this;
            assert(listed.push(one)[i] == this);
        }
    }
}

/// Whether values of a type can be compared for equality. A tuple can where all its fields can;
/// one that holds itself cannot.
pub open spec fn comparable(p: &Program, ty: TypeId, within: Seq<DefinitionId>) -> bool
    decreases unlisted_definitions(p.definitions.len() as nat, within),
{
    if ty.0 >= p.types@.len() {
        false
    } else {
        match p.types@[ty.0 as int] {
            Type::Unit => true,
            Type::Primitive(_) => true,
            Type::List(_) => true,
            Type::Mapping { .. } => true,
            Type::Nominal(definition) => if within.contains(definition) || definition.0 >= p.definitions.len() {
                false
            } else {
                match p.definitions@[definition.0 as int].layout {
                    DefinitionLayout::Struct(_) => true,
                    DefinitionLayout::Tuple(fields) => {
                        proof {
                            lemma_listing_definition(p.definitions.len() as nat, within, definition);
                        }
                        forall|i: int|
                            0 <= i < fields@.len() ==> comparable(p, #[trigger] fields@[i], within.push(definition))
                    },
                    DefinitionLayout::Union(_) => false,
                }
            },
            Type::Union(_) => false,
        }
    }
}

/// Whether values of a type can be printed. A tuple or union can where all that it holds can; one
/// that holds itself cannot.
pub open spec fn printable(p: &Program, ty: TypeId, within: Seq<DefinitionId>, unions: Seq<TypeId>) -> bool
    decreases
        unlisted_definitions(p.definitions.len() as nat, within) + unlisted_types(p.types.len() as nat, unions),
{
    if ty.0 >= p.types.len() {
        false
    } else {
        match p.types@[ty.0 as int] {
            Type::Unit => true,
            Type::Primitive(_) => true,
            Type::Union(alternatives) => if unions.contains(ty) {
                false
            } else {
                proof {
                    lemma_listing_type(p.types.len() as nat, unions, ty);
                }
                forall|i: int|
                    0 <= i < alternatives@.len() ==> printable(
                        p,
                        (#[trigger] alternatives@[i]).payload,
                        within,
                        unions.push(ty),
                    )
            },
            Type::Nominal(definition) => if within.contains(definition) || definition.0 >= p.definitions.len() {
                false
            } else {
                proof {
                    lemma_listing_definition(p.definitions.len() as nat, within, definition);
                }
                match p.definitions@[definition.0 as int].layout {
                    DefinitionLayout::Tuple(fields) => forall|i: int|
                        0 <= i < fields@.len() ==> printable(
                            p,
                            #[trigger] fields@[i],
                            within.push(definition),
                            unions,
                        ),
                    DefinitionLayout::Union(alternatives) => forall|i: int|
                        0 <= i < alternatives@.len() ==> printable(
                            p,
                            (#[trigger] alternatives@[i]).payload,
                            within.push(definition),
                            unions,
                        ),
                    DefinitionLayout::Struct(_) => false,
                }
            },
            _ => false,
        }
    }
}

/// The alternatives of a union type.
pub open spec fn alternatives_of(p: &Program, ty: TypeId) -> Checked<Seq<UnionAlternative>> {
    match type_at(p, ty) {
        Err(message) => Err(message),
        Ok(Type::Union(alternatives)) => Ok(alternatives@),
        Ok(Type::Nominal(definition)) => match definition_at(p, definition) {
            Err(message) => Err(message),
            Ok(found) => match found.layout {
                DefinitionLayout::Union(alternatives) => Ok(alternatives@),
                _ => Err(ty.text() + " is not a union type"@),
            },
        },
        Ok(_) => Err(ty.text() + " is not a union type"@),
    }
}

pub open spec fn payload_of(p: &Program, union: TypeId, alternative: AlternativeId) -> Checked<TypeId> {
    match alternatives_of(p, union) {
        Err(message) => Err(message),
        Ok(alternatives) => if alternative.0 < alternatives.len() {
            Ok(alternatives[alternative.0 as int].payload)
        } else {
            Err("invalid alternative identity "@ + alternative.text())
        },
    }
}

/// A failure site of the function, for one of the given operations.
pub open spec fn failure_check(
    p: &Program,
    function: Option<FunctionId>,
    id: FailureSiteId,
    allowed: Seq<FailureOperation>,
) -> Checked<()> {
    if id.0 >= p.failure_sites@.len() {
        Err("invalid failure-site identity "@ + id.text())
    } else if Some(p.failure_sites@[id.0 as int].function) != function {
        Err(id.text() + " belongs to a different function"@)
    } else {
        check(
            allowed.contains(p.failure_sites@[id.0 as int].operation),
            id.text() + " operation disagrees with its use"@,
        )
    }
}

/// Where the failure of an operation is attributed to.
pub open spec fn failure_located(p: &Program, id: FailureSiteId, location: LocationId) -> bool {
    p.failure_sites@[id.0 as int].location == location
}

pub open spec fn local_expected(f: &Function, local: LocalId, expected: TypeId, description: Seq<char>) -> Checked<()> {
    match local_at(f, local) {
        Err(message) => Err(message),
        Ok(found) => check(found.ty == expected, description + " type does not match destination"@),
    }
}

/// The type that a projection gives.
pub open spec fn projection_type(
    p: &Program,
    function: Option<FunctionId>,
    f: &Function,
    current: TypeId,
    projection: Projection,
) -> Checked<TypeId> {
    match projection {
        Projection::StructField { definition, field, storage } => match type_at(p, current) {
            Err(message) => Err(message),
            Ok(ty) => if ty != Type::Nominal(definition) {
                Err("struct projection definition does not match the projected type"@)
            } else {
                match definition_at(p, definition) {
                    Err(message) => Err(message),
                    Ok(found) => match found.layout {
                        DefinitionLayout::Struct(fields) => if field.0 >= fields@.len() {
                            Err("invalid field identity "@ + field.text())
                        } else if fields@[field.0 as int].storage != storage {
                            Err("struct projection storage disagrees with its field"@)
                        } else {
                            Ok(fields@[field.0 as int].ty)
                        },
                        _ => Err("struct projection names a non-struct definition"@),
                    },
                }
            },
        },
        Projection::TupleField { definition, field } => match type_at(p, current) {
            Err(message) => Err(message),
            Ok(ty) => if ty != Type::Nominal(definition) {
                Err("tuple projection definition does not match the projected type"@)
            } else {
                match definition_at(p, definition) {
                    Err(message) => Err(message),
                    Ok(found) => match found.layout {
                        DefinitionLayout::Tuple(fields) => if field.0 >= fields@.len() {
                            Err("invalid field identity "@ + field.text())
                        } else {
                            Ok(fields@[field.0 as int])
                        },
                        _ => Err("tuple projection names a non-tuple definition"@),
                    },
                }
            },
        },
        Projection::ListIndex { index, failure } => match primitive(p, PrimitiveType::Int) {
            Err(message) => Err(message),
            Ok(int_type) => both(
                local_expected(f, index, int_type, "list index"@),
                both(
                    failure_check(p, function, failure, seq![FailureOperation::ListIndex]),
                    match type_at(p, current) {
                        Err(message) => Err(message),
                        Ok(Type::List(element)) => Ok(element),
                        Ok(_) => Err("list-index projection is applied to a non-list"@),
                    },
                ),
            ),
        },
        Projection::MapIndex { key, failure } => match type_at(p, current) {
            Err(message) => Err(message),
            Ok(Type::Mapping { key: expected, value }) => both(
                local_expected(f, key, expected, "map key"@),
                both(failure_check(p, function, failure, seq![FailureOperation::MapIndex]), Ok(value)),
            ),
            Ok(_) => Err("map-index projection is applied to a non-map"@),
        },
    }
}

/// The type behind the first `count` projections.
pub open spec fn projected_type(
    p: &Program,
    function: Option<FunctionId>,
    f: &Function,
    start: TypeId,
    projections: Seq<Projection>,
    count: nat,
) -> Checked<TypeId>
    decreases count,
{
    if count == 0 {
        Ok(start)
    } else {
        match projected_type(p, function, f, start, projections, (count - 1) as nat) {
            Err(message) => Err(message),
            Ok(current) => projection_type(p, function, f, current, projections[count - 1]),
        }
    }
}

pub open spec fn place_type(p: &Program, function: Option<FunctionId>, f: &Function, place: PlaceView) -> Checked<
    TypeId,
> {
    match local_at(f, place.local) {
        Err(message) => Err(message),
        Ok(local) => projected_type(p, function, f, local.ty, place.projections, place.projections.len()),
    }
}

/// Whether a constant is a value of a type.
pub open spec fn constant_fits(ty: Type, value: ConstantValue) -> bool {
    match value {
        ConstantValue::Unit => ty is Unit,
        ConstantValue::Integer(_) => ty == Type::Primitive(PrimitiveType::Int),
        ConstantValue::Float(_) => ty == Type::Primitive(PrimitiveType::Float),
        ConstantValue::String(_) => ty == Type::Primitive(PrimitiveType::Str),
        ConstantValue::Character(byte) => ty == Type::Primitive(PrimitiveType::Char) && byte <= 127,
        ConstantValue::Boolean(_) => ty == Type::Primitive(PrimitiveType::Bool),
    }
}

pub open spec fn operand_type(p: &Program, function: Option<FunctionId>, f: &Function, operand: &Operand) -> Checked<
    TypeId,
> {
    match operand {
        Operand::Copy(place) => place_type(p, function, f, place@),
        Operand::Constant(constant) => match type_at(p, constant.ty) {
            Err(message) => Err(message),
            Ok(ty) => if constant_fits(ty, constant.value) {
                Ok(constant.ty)
            } else {
                Err("constant value does not agree with its type"@)
            },
        },
    }
}

pub open spec fn operand_expected(
    p: &Program,
    function: Option<FunctionId>,
    f: &Function,
    operand: &Operand,
    expected: TypeId,
    description: Seq<char>,
) -> Checked<()> {
    match operand_type(p, function, f, operand) {
        Err(message) => Err(message),
        Ok(found) => check(found == expected, description + " has the wrong type"@),
    }
}

/// The operands from `from` on have the type at the same place.
pub open spec fn operands_expected(
    p: &Program,
    function: Option<FunctionId>,
    f: &Function,
    operands: Seq<Operand>,
    expected: Seq<TypeId>,
    from: int,
    description: Seq<char>,
) -> Checked<()>
    decreases operands.len() - from,
{
    if from >= operands.len() || from >= expected.len() {
        Ok(())
    } else {
        both(
            operand_expected(p, function, f, &operands[from], expected[from], description),
            operands_expected(p, function, f, operands, expected, from + 1, description),
        )
    }
}

/// The operands from `from` on have the given type.
pub open spec fn all_expected(
    p: &Program,
    function: Option<FunctionId>,
    f: &Function,
    operands: Seq<Operand>,
    expected: TypeId,
    from: int,
    description: Seq<char>,
) -> Checked<()>
    decreases operands.len() - from,
{
    if from >= operands.len() {
        Ok(())
    } else {
        both(
            operand_expected(p, function, f, &operands[from], expected, description),
            all_expected(p, function, f, operands, expected, from + 1, description),
        )
    }
}

pub open spec fn conversion_result(p: &Program, conversion: NumericConversion, source: TypeId) -> Checked<TypeId> {
    match conversion {
        NumericConversion::IntToFloat => if is_primitive(p, source, PrimitiveType::Int) {
            primitive(p, PrimitiveType::Float)
        } else {
            Err("numeric conversion has the wrong operand type"@)
        },
        NumericConversion::FloatToInt => if is_primitive(p, source, PrimitiveType::Float) {
            primitive(p, PrimitiveType::Int)
        } else {
            Err("numeric conversion has the wrong operand type"@)
        },
    }
}

/// Whether a field stands among the first `count` entries.
pub open spec fn field_before(fields: Seq<(FieldId, Operand)>, count: int, field: FieldId) -> bool {
    exists|i: int| 0 <= i < count && (#[trigger] fields[i]).0 == field
}

/// The fields of a struct literal from `from` on: each is one of the layout, none occurs twice,
/// and each operand has the type of its field.
pub open spec fn struct_fields_check(
    p: &Program,
    function: Option<FunctionId>,
    f: &Function,
    layout: Seq<StructField>,
    fields: Seq<(FieldId, Operand)>,
    from: int,
) -> Checked<()>
    decreases fields.len() - from,
{
    if from >= fields.len() {
        Ok(())
    } else {
        let field = fields[from].0;
        if field.0 >= layout.len() {
            Err("invalid field identity "@ + field.text())
        } else if field_before(fields, from, field) {
            Err("struct aggregate repeats a field"@)
        } else {
            both(
                operand_expected(p, function, f, &fields[from].1, layout[field.0 as int].ty, "struct field"@),
                struct_fields_check(p, function, f, layout, fields, from + 1),
            )
        }
    }
}

pub open spec fn entries_check(
    p: &Program,
    function: Option<FunctionId>,
    f: &Function,
    entries: Seq<(Operand, Operand)>,
    key: TypeId,
    value: TypeId,
    from: int,
) -> Checked<()>
    decreases entries.len() - from,
{
    if from >= entries.len() {
        Ok(())
    } else {
        both(
            operand_expected(p, function, f, &entries[from].0, key, "map key"@),
            both(
                operand_expected(p, function, f, &entries[from].1, value, "map value"@),
                entries_check(p, function, f, entries, key, value, from + 1),
            ),
        )
    }
}

/// The type that an aggregate has.
pub open spec fn aggregate_type(
    p: &Program,
    function: Option<FunctionId>,
    f: &Function,
    aggregate: &Aggregate,
) -> Checked<
    TypeId,
> {
    match aggregate {
        Aggregate::Struct { definition, fields } => match definition_at(p, *definition) {
            Err(message) => Err(message),
            Ok(found) => match found.layout {
                DefinitionLayout::Struct(layout) => if fields@.len() != layout@.len() {
                    Err("struct aggregate is incomplete"@)
                } else {
                    both(struct_fields_check(p, function, f, layout@, fields@, 0), nominal(p, *definition))
                },
                _ => Err("struct aggregate names a non-struct definition"@),
            },
        },
        Aggregate::Tuple { definition, elements } => match definition_at(p, *definition) {
            Err(message) => Err(message),
            Ok(found) => match found.layout {
                DefinitionLayout::Tuple(layout) => if elements@.len() != layout@.len() {
                    Err("tuple aggregate arity does not match layout"@)
                } else {
                    both(
                        operands_expected(p, function, f, elements@, layout@, 0, "tuple field"@),
                        nominal(p, *definition),
                    )
                },
                _ => Err("tuple aggregate names a non-tuple definition"@),
            },
        },
        Aggregate::List { ty, elements } => match type_at(p, *ty) {
            Err(message) => Err(message),
            Ok(Type::List(element)) => both(
                all_expected(p, function, f, elements@, element, 0, "list element"@),
                Ok(*ty),
            ),
            Ok(_) => Err("list aggregate has a non-list type"@),
        },
        Aggregate::Mapping { ty, entries } => match type_at(p, *ty) {
            Err(message) => Err(message),
            Ok(Type::Mapping { key, value }) => both(
                entries_check(p, function, f, entries@, key, value, 0),
                Ok(*ty),
            ),
            Ok(_) => Err("map aggregate has a non-map type"@),
        },
    }
}

/// The failure that a built-in method can end in.
pub open spec fn builtin_failure(method: BuiltinMethod) -> Option<FailureOperation> {
    match method {
        BuiltinMethod::ListAppend => Some(FailureOperation::ListAppend),
        BuiltinMethod::ListRemoveIndex => Some(FailureOperation::ListRemoveIndex),
        BuiltinMethod::MapRemoveKey => Some(FailureOperation::MapRemoveKey),
        _ => None,
    }
}

/// The type that a built-in method returns on a receiver of the given type.
pub open spec fn builtin_result(
    p: &Program,
    function: Option<FunctionId>,
    f: &Function,
    method: BuiltinMethod,
    receiver: Type,
    arguments: Seq<Operand>,
    unit_type: TypeId,
    int_type: TypeId,
) -> Checked<TypeId> {
    if method == BuiltinMethod::ListAppend && receiver is List && arguments.len() == 1 {
        both(
            operand_expected(p, function, f, &arguments[0], receiver->List_0, "append argument"@),
            Ok(unit_type),
        )
    } else if method == BuiltinMethod::ListRemoveIndex && receiver is List && arguments.len() == 1 {
        both(operand_expected(p, function, f, &arguments[0], int_type, "list index"@), Ok(unit_type))
    } else if method == BuiltinMethod::ListLen && receiver is List && arguments.len() == 0 {
        Ok(int_type)
    } else if method == BuiltinMethod::MapRemoveKey && receiver is Mapping && arguments.len() == 1 {
        both(operand_expected(p, function, f, &arguments[0], receiver->key, "map key"@), Ok(unit_type))
    } else if method == BuiltinMethod::MapLen && receiver is Mapping && arguments.len() == 0 {
        Ok(int_type)
    } else if method == BuiltinMethod::StrLen && receiver == Type::Primitive(PrimitiveType::Str) && arguments.len()
        == 0 {
        Ok(int_type)
    } else {
        Err("built-in receiver or arguments do not match its signature"@)
    }
}

pub open spec fn builtin_failure_check(
    p: &Program,
    function: Option<FunctionId>,
    method: BuiltinMethod,
    failure: Option<FailureSiteId>,
) -> Checked<()> {
    match (failure, builtin_failure(method)) {
        (Some(site), Some(operation)) => failure_check(p, function, site, seq![operation]),
        (None, None) => Ok(()),
        _ => Err("built-in failure attribution does not match its operation"@),
    }
}

pub open spec fn builtin_check(
    p: &Program,
    function: Option<FunctionId>,
    f: &Function,
    destination: LocalId,
    method: BuiltinMethod,
    receiver: &Operand,
    arguments: Seq<Operand>,
    failure: Option<FailureSiteId>,
) -> Checked<()> {
    match operand_type(p, function, f, receiver) {
        Err(message) => Err(message),
        Ok(receiver_type) => match canonical(p, TypeView::Unit) {
            Err(message) => Err(message),
            Ok(unit_type) => match primitive(p, PrimitiveType::Int) {
                Err(message) => Err(message),
                Ok(int_type) => match type_at(p, receiver_type) {
                    Err(message) => Err(message),
                    Ok(ty) => match builtin_result(p, function, f, method, ty, arguments, unit_type, int_type) {
                        Err(message) => Err(message),
                        Ok(result) => both(
                            builtin_failure_check(p, function, method, failure),
                            local_expected(f, destination, result, "built-in call"@),
                        ),
                    },
                },
            },
        },
    }
}

pub open spec fn check_site(check: &RuntimeCheck) -> FailureSiteId {
    match check {
        RuntimeCheck::IntegerOverflow { failure, .. } => *failure,
        RuntimeCheck::IntegerNegation { failure, .. } => *failure,
        RuntimeCheck::Division { failure, .. } => *failure,
        RuntimeCheck::Remainder { failure, .. } => *failure,
        RuntimeCheck::ShiftRange { failure, .. } => *failure,
        RuntimeCheck::FiniteFloat { failure, .. } => *failure,
        RuntimeCheck::NumericConversion { failure, .. } => *failure,
        RuntimeCheck::IterationUnlocked { failure, .. } => *failure,
    }
}

/// The failures that a runtime check can be for.
pub open spec fn check_failures(check: &RuntimeCheck) -> Seq<FailureOperation> {
    match check {
        RuntimeCheck::IntegerOverflow { operation, .. } => match operation {
            IntegerOperation::Add => seq![FailureOperation::IntegerAdd],
            IntegerOperation::Subtract => seq![FailureOperation::IntegerSubtract],
            IntegerOperation::Multiply => seq![FailureOperation::IntegerMultiply],
            IntegerOperation::ShiftLeft => seq![FailureOperation::ShiftLeft],
        },
        RuntimeCheck::IntegerNegation { .. } => seq![FailureOperation::IntegerNegation],
        RuntimeCheck::Division { .. } => seq![FailureOperation::IntegerDivision, FailureOperation::FloatDivision],
        RuntimeCheck::Remainder { .. } => seq![FailureOperation::IntegerRemainder],
        RuntimeCheck::ShiftRange { .. } => seq![FailureOperation::ShiftLeft, FailureOperation::ShiftRight],
        RuntimeCheck::FiniteFloat { .. } => seq![
            FailureOperation::FloatAdd,
            FailureOperation::FloatSubtract,
            FailureOperation::FloatMultiply,
            FailureOperation::FloatDivision,
        ],
        RuntimeCheck::NumericConversion { .. } => seq![FailureOperation::FloatToInt],
        RuntimeCheck::IterationUnlocked { .. } => seq![
            FailureOperation::ListAppend,
            FailureOperation::ListRemoveIndex,
            FailureOperation::MapRemoveKey,
        ],
    }
}

pub open spec fn check_operands(
    p: &Program,
    function: Option<FunctionId>,
    f: &Function,
    runtime: &RuntimeCheck,
    int_type: TypeId,
) -> Checked<()> {
    match runtime {
        RuntimeCheck::IntegerOverflow { left, right, .. } => both(
            operand_expected(p, function, f, left, int_type, "overflow operand"@),
            operand_expected(p, function, f, right, int_type, "overflow operand"@),
        ),
        RuntimeCheck::IntegerNegation { operand, .. } => operand_expected(
            p,
            function,
            f,
            operand,
            int_type,
            "integer check operand"@,
        ),
        RuntimeCheck::ShiftRange { amount, .. } => operand_expected(
            p,
            function,
            f,
            amount,
            int_type,
            "integer check operand"@,
        ),
        RuntimeCheck::Division { left, right, failure } => match operand_type(p, function, f, left) {
            Err(message) => Err(message),
            Ok(ty) => both(
                check(is_numeric(p, ty), "division check operand is not numeric"@),
                both(
                    failure_check(
                        p,
                        function,
                        *failure,
                        seq![if ty == int_type {
                            FailureOperation::IntegerDivision
                        } else {
                            FailureOperation::FloatDivision
                        }],
                    ),
                    operand_expected(p, function, f, right, ty, "division check operand"@),
                ),
            ),
        },
        RuntimeCheck::Remainder { left, right, .. } => both(
            operand_expected(p, function, f, left, int_type, "remainder operand"@),
            operand_expected(p, function, f, right, int_type, "remainder operand"@),
        ),
        RuntimeCheck::FiniteFloat { operand, .. } => match primitive(p, PrimitiveType::Float) {
            Err(message) => Err(message),
            Ok(float_type) => operand_expected(p, function, f, operand, float_type, "finite-float operand"@),
        },
        RuntimeCheck::NumericConversion { operand, conversion, .. } => match operand_type(p, function, f, operand) {
            Err(message) => Err(message),
            Ok(source) => both(conversion_result(p, *conversion, source), Ok(())),
        },
        RuntimeCheck::IterationUnlocked { receiver, .. } => match operand_type(p, function, f, receiver) {
            Err(message) => Err(message),
            Ok(ty) => match type_at(p, ty) {
                Err(message) => Err(message),
                Ok(found) => check(
                    found is List || found is Mapping,
                    "iteration-lock check receiver is not a list or map"@,
                ),
            },
        },
    }
}

pub open spec fn runtime_check(
    p: &Program,
    function: Option<FunctionId>,
    f: &Function,
    runtime: &RuntimeCheck,
) -> Checked<
    (),
> {
    match primitive(p, PrimitiveType::Int) {
        Err(message) => Err(message),
        Ok(int_type) => both(
            failure_check(p, function, check_site(runtime), check_failures(runtime)),
            check_operands(p, function, f, runtime, int_type),
        ),
    }
}

/// The type that a unary operator gives.
pub open spec fn unary_result(p: &Program, operator: UnaryOperator, operand: TypeId) -> Checked<TypeId> {
    let fits = match operator {
        UnaryOperator::LogicalNot => is_primitive(p, operand, PrimitiveType::Bool),
        UnaryOperator::BitwiseNot => is_primitive(p, operand, PrimitiveType::Int),
        UnaryOperator::Plus => is_numeric(p, operand),
        UnaryOperator::Minus => is_numeric(p, operand),
    };
    if fits {
        Ok(operand)
    } else {
        Err("invalid unary operand type"@)
    }
}

/// The type that a binary operator gives.
pub open spec fn binary_result(
    p: &Program,
    operator: BinaryOperator,
    left: TypeId,
    right: TypeId,
    bool_type: TypeId,
    int_type: TypeId,
) -> Checked<TypeId> {
    let result = match operator {
        BinaryOperator::BitwiseOr | BinaryOperator::BitwiseXor | BinaryOperator::BitwiseAnd | BinaryOperator::ShiftLeft
        | BinaryOperator::ShiftRight | BinaryOperator::Remainder => if left == int_type && right == int_type {
            Some(int_type)
        } else {
            None
        },
        BinaryOperator::Add | BinaryOperator::Subtract | BinaryOperator::Multiply | BinaryOperator::Divide => if left
            == right && is_numeric(p, left) {
            Some(left)
        } else {
            None
        },
        BinaryOperator::Equal | BinaryOperator::NotEqual => if left == right && comparable(p, left, seq![]) {
            Some(bool_type)
        } else {
            None
        },
        BinaryOperator::Less | BinaryOperator::LessEqual | BinaryOperator::Greater
        | BinaryOperator::GreaterEqual => if left == right && is_ordered(p, left) {
            Some(bool_type)
        } else {
            None
        },
        BinaryOperator::In => if membership(p, left, right) {
            Some(bool_type)
        } else {
            None
        },
    };
    match result {
        Some(ty) => Ok(ty),
        None => Err("invalid binary operand types"@),
    }
}

/// The arguments of a call have the types of the parameters, from `from` on.
pub open spec fn arguments_check(
    p: &Program,
    function: Option<FunctionId>,
    f: &Function,
    callee: &Function,
    arguments: Seq<Operand>,
    from: int,
) -> Checked<()>
    decreases arguments.len() - from,
{
    if from >= arguments.len() {
        Ok(())
    } else {
        match local_at(callee, callee.parameters@[from]) {
            Err(message) => Err(message),
            Ok(local) => both(
                operand_expected(p, function, f, &arguments[from], local.ty, "call argument"@),
                arguments_check(p, function, f, callee, arguments, from + 1),
            ),
        }
    }
}

pub open spec fn printable_argument(
    p: &Program,
    function: Option<FunctionId>,
    f: &Function,
    argument: &Operand,
    message: Seq<char>,
) -> Checked<()> {
    match operand_type(p, function, f, argument) {
        Err(message) => Err(message),
        Ok(ty) => check(printable(p, ty, seq![], seq![]), message),
    }
}

pub open spec fn intrinsic_arguments(
    p: &Program,
    function: Option<FunctionId>,
    f: &Function,
    intrinsic: Intrinsic,
    arguments: Seq<Operand>,
) -> Checked<()> {
    if intrinsic == Intrinsic::Print && arguments.len() == 1 {
        printable_argument(p, function, f, &arguments[0], "print argument is not printable"@)
    } else if intrinsic == Intrinsic::Println && arguments.len() == 1 {
        printable_argument(p, function, f, &arguments[0], "println argument is not printable"@)
    } else if intrinsic == Intrinsic::Println && arguments.len() == 0 {
        Ok(())
    } else {
        Err("intrinsic argument count does not match signature"@)
    }
}

pub open spec fn iterable_check(
    p: &Program,
    function: Option<FunctionId>,
    f: &Function,
    iterable: &Operand,
) -> Checked<()> {
    match operand_type(p, function, f, iterable) {
        Err(message) => Err(message),
        Ok(ty) => match type_at(p, ty) {
            Err(message) => Err(message),
            Ok(found) => check(found is List || found is Mapping, "iteration operand is not a list or map"@),
        },
    }
}

/// An operation on its own.
pub open spec fn operation_check(
    p: &Program,
    function: Option<FunctionId>,
    f: &Function,
    operation: &Operation,
) -> Checked<
    (),
> {
    match &operation.kind {
        OperationKind::Copy { destination, operand } => match operand_type(p, function, f, operand) {
            Err(message) => Err(message),
            Ok(ty) => local_expected(f, *destination, ty, "copy"@),
        },
        OperationKind::Unary { destination, operator, operand } => match operand_type(p, function, f, operand) {
            Err(message) => Err(message),
            Ok(ty) => match unary_result(p, *operator, ty) {
                Err(message) => Err(message),
                Ok(result) => local_expected(f, *destination, result, "unary operation"@),
            },
        },
        OperationKind::Binary { destination, operator, left, right } => match operand_type(p, function, f, left) {
            Err(message) => Err(message),
            Ok(left_type) => match operand_type(p, function, f, right) {
                Err(message) => Err(message),
                Ok(right_type) => match primitive(p, PrimitiveType::Bool) {
                    Err(message) => Err(message),
                    Ok(bool_type) => match primitive(p, PrimitiveType::Int) {
                        Err(message) => Err(message),
                        Ok(int_type) => match binary_result(
                            p,
                            *operator,
                            left_type,
                            right_type,
                            bool_type,
                            int_type,
                        ) {
                            Err(message) => Err(message),
                            Ok(result) => local_expected(f, *destination, result, "binary operation"@),
                        },
                    },
                },
            },
        },
        OperationKind::Convert { destination, conversion, operand } => match operand_type(p, function, f, operand) {
            Err(message) => Err(message),
            Ok(source) => match conversion_result(p, *conversion, source) {
                Err(message) => Err(message),
                Ok(result) => local_expected(f, *destination, result, "conversion"@),
            },
        },
        OperationKind::Aggregate { destination, aggregate } => match aggregate_type(p, function, f, aggregate) {
            Err(message) => Err(message),
            Ok(result) => local_expected(f, *destination, result, "aggregate"@),
        },
        OperationKind::UnionInject { destination, union_type, alternative, payload } => match payload_of(
            p,
            *union_type,
            *alternative,
        ) {
            Err(message) => Err(message),
            Ok(expected) => both(
                operand_expected(p, function, f, payload, expected, "union payload"@),
                local_expected(f, *destination, *union_type, "union injection"@),
            ),
        },
        OperationKind::UnionTest { destination, union, alternative } => match operand_type(p, function, f, union) {
            Err(message) => Err(message),
            Ok(union_type) => both(
                payload_of(p, union_type, *alternative),
                match primitive(p, PrimitiveType::Bool) {
                    Err(message) => Err(message),
                    Ok(bool_type) => local_expected(f, *destination, bool_type, "union test"@),
                },
            ),
        },
        OperationKind::UnionPayload { destination, union, alternative } => match operand_type(p, function, f, union) {
            Err(message) => Err(message),
            Ok(union_type) => match payload_of(p, union_type, *alternative) {
                Err(message) => Err(message),
                Ok(payload) => local_expected(f, *destination, payload, "union payload"@),
            },
        },
        OperationKind::StringIndex { destination, string, index, failure } => match primitive(p, PrimitiveType::Str) {
            Err(message) => Err(message),
            Ok(str_type) => both(
                operand_expected(p, function, f, string, str_type, "string index receiver"@),
                match primitive(p, PrimitiveType::Int) {
                    Err(message) => Err(message),
                    Ok(int_type) => both(
                        operand_expected(p, function, f, index, int_type, "string index"@),
                        both(
                            failure_check(p, function, *failure, seq![FailureOperation::StringIndex]),
                            match primitive(p, PrimitiveType::Char) {
                                Err(message) => Err(message),
                                Ok(char_type) => local_expected(f, *destination, char_type, "string index"@),
                            },
                        ),
                    ),
                },
            ),
        },
        OperationKind::Assign { destination, value } => match place_type(p, function, f, destination@) {
            Err(message) => Err(message),
            Ok(ty) => operand_expected(p, function, f, value, ty, "assignment"@),
        },
        OperationKind::Call { destination, function: called, arguments } => match function_at(p, *called) {
            Err(message) => Err(message),
            Ok(callee) => if arguments@.len() != callee.parameters@.len() {
                Err("call argument count does not match signature"@)
            } else {
                both(
                    arguments_check(p, function, f, &callee, arguments@, 0),
                    local_expected(f, *destination, callee.result, "call"@),
                )
            },
        },
        OperationKind::Intrinsic { destination, intrinsic, arguments, failure } => match canonical(p, TypeView::Unit) {
            Err(message) => Err(message),
            Ok(unit_type) => both(
                intrinsic_arguments(p, function, f, *intrinsic, arguments@),
                both(
                    failure_check(p, function, *failure, seq![FailureOperation::Output]),
                    both(
                        check(
                            failure_located(p, *failure, operation.location),
                            "output failure site has the wrong source location"@,
                        ),
                        local_expected(f, *destination, unit_type, "intrinsic call"@),
                    ),
                ),
            ),
        },
        OperationKind::Builtin { destination, method, receiver, arguments, failure } => both(
            builtin_check(p, function, f, *destination, *method, receiver, arguments@, *failure),
            match failure {
                Some(site) => check(
                    failure_located(p, *site, operation.location),
                    "built-in failure site has the wrong source location"@,
                ),
                None => Ok(()),
            },
        ),
        OperationKind::BeginIteration { iterable } => iterable_check(p, function, f, iterable),
        OperationKind::EndIteration { iterable } => iterable_check(p, function, f, iterable),
        OperationKind::IterationValue { destination, iterable, index } => match operand_type(p, function, f, iterable) {
            Err(message) => Err(message),
            Ok(ty) => match type_at(p, ty) {
                Err(message) => Err(message),
                Ok(found) => if !(found is List || found is Mapping) {
                    Err("iteration operand is not a list or map"@)
                } else {
                    let result = if found is List {
                        found->List_0
                    } else {
                        found->key
                    };
                    match primitive(p, PrimitiveType::Int) {
                        Err(message) => Err(message),
                        Ok(int_type) => both(
                            operand_expected(p, function, f, index, int_type, "iteration index"@),
                            local_expected(f, *destination, result, "iteration value"@),
                        ),
                    }
                },
            },
        },
        OperationKind::Check(runtime) => both(
            runtime_check(p, function, f, runtime),
            check(
                failure_located(p, check_site(runtime), operation.location),
                "runtime check failure site has the wrong source location"@,
            ),
        ),
    }
}

/// Whether an alternative stands among the first `count` targets.
pub open spec fn target_before(targets: Seq<(AlternativeId, BlockId)>, count: int, alternative: AlternativeId) -> bool {
    exists|i: int| 0 <= i < count && (#[trigger] targets[i]).0 == alternative
}

/// The targets of a switch from `from` on: each is one of the alternatives, none occurs twice, and
/// each goes to a block of the function.
pub open spec fn targets_check(
    f: &Function,
    alternatives: nat,
    targets: Seq<(AlternativeId, BlockId)>,
    from: int,
) -> Checked<()>
    decreases targets.len() - from,
{
    if from >= targets.len() {
        Ok(())
    } else if targets[from].0.0 >= alternatives {
        Err("invalid alternative identity "@ + targets[from].0.text())
    } else if target_before(targets, from, targets[from].0) {
        Err("switch repeats an alternative"@)
    } else {
        both(block_check(f, targets[from].1), targets_check(f, alternatives, targets, from + 1))
    }
}

pub open spec fn terminator_check(
    p: &Program,
    function: Option<FunctionId>,
    f: &Function,
    terminator: &Terminator,
) -> Checked<
    (),
> {
    match &terminator.kind {
        TerminatorKind::Jump(target) => block_check(f, *target),
        TerminatorKind::Branch { condition, then_block, else_block } => match primitive(p, PrimitiveType::Bool) {
            Err(message) => Err(message),
            Ok(bool_type) => both(
                operand_expected(p, function, f, condition, bool_type, "branch condition"@),
                both(block_check(f, *then_block), block_check(f, *else_block)),
            ),
        },
        TerminatorKind::Switch { union, targets } => match operand_type(p, function, f, union) {
            Err(message) => Err(message),
            Ok(ty) => match alternatives_of(p, ty) {
                Err(message) => Err(message),
                Ok(alternatives) => both(
                    targets_check(f, alternatives.len(), targets@, 0),
                    check(
                        targets@.len() == alternatives.len(),
                        "switch does not cover every alternative"@,
                    ),
                ),
            },
        },
        TerminatorKind::Return(value) => operand_expected(p, function, f, value, f.result, "return value"@),
        TerminatorKind::Panic { message, failure } => both(
            failure_check(p, function, *failure, seq![FailureOperation::ExplicitPanic]),
            both(
                check(
                    failure_located(p, *failure, terminator.location),
                    "panic failure site has the wrong source location"@,
                ),
                match primitive(p, PrimitiveType::Str) {
                    Err(message) => Err(message),
                    Ok(str_type) => operand_expected(p, function, f, message, str_type, "panic message"@),
                },
            ),
        ),
        TerminatorKind::ErrorPanic { payload, failure } => both(
            failure_check(p, function, *failure, seq![FailureOperation::UnhandledError]),
            both(
                check(
                    failure_located(p, *failure, terminator.location),
                    "Error panic failure site has the wrong source location"@,
                ),
                match operand_type(p, function, f, payload) {
                    Err(message) => Err(message),
                    Ok(ty) => match type_at(p, ty) {
                        Err(message) => Err(message),
                        Ok(found) => check(found is Primitive, "Error panic payload is not primitive"@),
                    },
                },
            ),
        ),
        TerminatorKind::Unreachable => Ok(()),
    }
}

/// What the operation at an index does.
pub open spec fn kind_at(operations: Seq<Operation>, index: int) -> Option<OperationKind> {
    if 0 <= index < operations.len() {
        Some(operations[index].kind)
    } else {
        None
    }
}

pub open spec fn is_overflow_check(
    kind: Option<OperationKind>,
    operation: IntegerOperation,
    left: OperandView,
    right: OperandView,
) -> bool {
    match kind {
        Some(OperationKind::Check(RuntimeCheck::IntegerOverflow { operation: found, left: a, right: b, .. })) => found
            == operation && a@ == left && b@ == right,
        _ => false,
    }
}

pub open spec fn is_negation_check(kind: Option<OperationKind>, operand: OperandView) -> bool {
    match kind {
        Some(OperationKind::Check(RuntimeCheck::IntegerNegation { operand: checked, .. })) => checked@ == operand,
        _ => false,
    }
}

pub open spec fn is_conversion_check(kind: Option<OperationKind>, operand: OperandView) -> bool {
    match kind {
        Some(OperationKind::Check(RuntimeCheck::NumericConversion { operand: checked, conversion, .. })) => conversion
            == NumericConversion::FloatToInt && checked@ == operand,
        _ => false,
    }
}

pub open spec fn is_division_check(kind: Option<OperationKind>, left: OperandView, right: OperandView) -> bool {
    match kind {
        Some(OperationKind::Check(RuntimeCheck::Division { left: a, right: b, .. })) => a@ == left && b@ == right,
        _ => false,
    }
}

pub open spec fn is_remainder_check(kind: Option<OperationKind>, left: OperandView, right: OperandView) -> bool {
    match kind {
        Some(OperationKind::Check(RuntimeCheck::Remainder { left: a, right: b, .. })) => a@ == left && b@ == right,
        _ => false,
    }
}

pub open spec fn is_shift_check(kind: Option<OperationKind>, amount: OperandView) -> bool {
    match kind {
        Some(OperationKind::Check(RuntimeCheck::ShiftRange { amount: checked, .. })) => checked@ == amount,
        _ => false,
    }
}

pub open spec fn is_unlocked_check(kind: Option<OperationKind>, receiver: OperandView, failure: FailureSiteId) -> bool {
    match kind {
        Some(OperationKind::Check(RuntimeCheck::IterationUnlocked { receiver: checked, failure: site })) => checked@
            == receiver && site == failure,
        _ => false,
    }
}

/// Whether the checks that a binary operation needs stand right before it.
pub open spec fn prechecked(
    operations: Seq<Operation>,
    index: int,
    operator: BinaryOperator,
    left: OperandView,
    right: OperandView,
    ty: TypeId,
    int_type: TypeId,
    float_type: TypeId,
) -> bool {
    let previous = kind_at(operations, index - 1);
    if ty == int_type && operator == BinaryOperator::Add {
        is_overflow_check(previous, IntegerOperation::Add, left, right)
    } else if ty == int_type && operator == BinaryOperator::Subtract {
        is_overflow_check(previous, IntegerOperation::Subtract, left, right)
    } else if ty == int_type && operator == BinaryOperator::Multiply {
        is_overflow_check(previous, IntegerOperation::Multiply, left, right)
    } else if (ty == int_type || ty == float_type) && operator == BinaryOperator::Divide {
        is_division_check(previous, left, right)
    } else if ty == int_type && operator == BinaryOperator::Remainder {
        is_remainder_check(previous, left, right)
    } else if ty == int_type && operator == BinaryOperator::ShiftRight {
        is_shift_check(previous, right)
    } else if ty == int_type && operator == BinaryOperator::ShiftLeft {
        is_overflow_check(previous, IntegerOperation::ShiftLeft, left, right) && is_shift_check(
            kind_at(operations, index - 2),
            right,
        )
    } else {
        true
    }
}

/// The failure of a floating-point operator whose result is not finite.
pub open spec fn float_failure(operator: BinaryOperator) -> Option<FailureOperation> {
    match operator {
        BinaryOperator::Add => Some(FailureOperation::FloatAdd),
        BinaryOperator::Subtract => Some(FailureOperation::FloatSubtract),
        BinaryOperator::Multiply => Some(FailureOperation::FloatMultiply),
        BinaryOperator::Divide => Some(FailureOperation::FloatDivision),
        _ => None,
    }
}

/// The operand that reads a local.
pub open spec fn local_operand(local: LocalId) -> OperandView {
    OperandView::Copy(PlaceView { local, projections: seq![] })
}

/// Whether a check of the result stands right behind a floating-point operation.
pub open spec fn postchecked(
    p: &Program,
    function: Option<FunctionId>,
    operations: Seq<Operation>,
    index: int,
    destination: LocalId,
    expected: FailureOperation,
) -> Checked<()> {
    match kind_at(operations, index + 1) {
        Some(OperationKind::Check(RuntimeCheck::FiniteFloat { operand, failure })) => both(
            check(
                operand@ == local_operand(destination),
                "float finite-result check names the wrong destination"@,
            ),
            failure_check(p, function, failure, seq![expected]),
        ),
        _ => Err("float arithmetic lacks its immediately following finite-result check"@),
    }
}

pub open spec fn overflow_operator(operation: IntegerOperation) -> BinaryOperator {
    match operation {
        IntegerOperation::Add => BinaryOperator::Add,
        IntegerOperation::Subtract => BinaryOperator::Subtract,
        IntegerOperation::Multiply => BinaryOperator::Multiply,
        IntegerOperation::ShiftLeft => BinaryOperator::ShiftLeft,
    }
}

pub open spec fn is_binary(
    kind: Option<OperationKind>,
    operator: BinaryOperator,
    left: OperandView,
    right: OperandView,
) -> bool {
    match kind {
        Some(OperationKind::Binary { operator: found, left: a, right: b, .. }) => found == operator && a@ == left && b@
            == right,
        _ => false,
    }
}

pub open spec fn is_negation(kind: Option<OperationKind>, operand: OperandView) -> bool {
    match kind {
        Some(OperationKind::Unary { operator, operand: value, .. }) => operator == UnaryOperator::Minus && value@
            == operand,
        _ => false,
    }
}

pub open spec fn is_shift_by(kind: Option<OperationKind>, amount: OperandView) -> bool {
    match kind {
        Some(OperationKind::Binary { operator, right, .. }) => (operator == BinaryOperator::ShiftLeft || operator
            == BinaryOperator::ShiftRight) && right@ == amount,
        Some(OperationKind::Check(RuntimeCheck::IntegerOverflow { operation, right, .. })) => operation
            == IntegerOperation::ShiftLeft && right@ == amount,
        _ => false,
    }
}

pub open spec fn computes(kind: Option<OperationKind>, operand: OperandView) -> bool {
    match kind {
        Some(OperationKind::Binary { destination, .. }) => operand == local_operand(destination),
        _ => false,
    }
}

pub open spec fn is_conversion(
    kind: Option<OperationKind>,
    conversion: NumericConversion,
    operand: OperandView,
) -> bool {
    match kind {
        Some(OperationKind::Convert { operand: value, conversion: found, .. }) => value@ == operand && found
            == conversion,
        _ => false,
    }
}

pub open spec fn is_mutation(kind: Option<OperationKind>, receiver: OperandView, failure: FailureSiteId) -> bool {
    match kind {
        Some(OperationKind::Builtin { receiver: found, failure: site, .. }) => found@ == receiver && site == Some(
            failure,
        ),
        _ => false,
    }
}

/// Whether a runtime check stands beside the operation that it is for.
pub open spec fn consumed(operations: Seq<Operation>, index: int, runtime: &RuntimeCheck) -> bool {
    let next = kind_at(operations, index + 1);
    match runtime {
        RuntimeCheck::IntegerOverflow { operation, left, right, .. } => is_binary(
            next,
            overflow_operator(*operation),
            left@,
            right@,
        ),
        RuntimeCheck::IntegerNegation { operand, .. } => is_negation(next, operand@),
        RuntimeCheck::Division { left, right, .. } => is_binary(next, BinaryOperator::Divide, left@, right@),
        RuntimeCheck::Remainder { left, right, .. } => is_binary(next, BinaryOperator::Remainder, left@, right@),
        RuntimeCheck::ShiftRange { amount, .. } => is_shift_by(next, amount@),
        RuntimeCheck::FiniteFloat { operand, .. } => computes(kind_at(operations, index - 1), operand@),
        RuntimeCheck::NumericConversion { operand, conversion, .. } => is_conversion(next, *conversion, operand@),
        RuntimeCheck::IterationUnlocked { receiver, failure } => is_mutation(next, receiver@, *failure),
    }
}

/// An operation beside its neighbours: it stands with the checks that it needs, or with the
/// operation that it checks.
pub open spec fn adjacent_check(
    p: &Program,
    function: Option<FunctionId>,
    f: &Function,
    operations: Seq<Operation>,
    index: int,
    int_type: TypeId,
    float_type: TypeId,
) -> Checked<()> {
    let previous = kind_at(operations, index - 1);
    match &operations[index].kind {
        OperationKind::Unary { operator, operand, .. } => if *operator == UnaryOperator::Minus {
            match operand_type(p, function, f, operand) {
                Err(message) => Err(message),
                Ok(ty) => check(
                    ty == int_type ==> is_negation_check(previous, operand@),
                    "integer negation lacks its immediately preceding check"@,
                ),
            }
        } else {
            Ok(())
        },
        OperationKind::Convert { conversion, operand, .. } => check(
            *conversion == NumericConversion::FloatToInt ==> is_conversion_check(previous, operand@),
            "float-to-int conversion lacks its immediately preceding check"@,
        ),
        OperationKind::Binary { destination, operator, left, right } => match operand_type(p, function, f, left) {
            Err(message) => Err(message),
            Ok(ty) => both(
                check(
                    prechecked(operations, index, *operator, left@, right@, ty, int_type, float_type),
                    "numeric operation has an invalid or missing pre-check sequence"@,
                ),
                match float_failure(*operator) {
                    Some(expected) => if ty == float_type {
                        postchecked(p, function, operations, index, *destination, expected)
                    } else {
                        Ok(())
                    },
                    None => Ok(()),
                },
            ),
        },
        OperationKind::Builtin { method, receiver, failure, .. } => match failure {
            Some(site) => check(
                builtin_failure(*method) is Some ==> is_unlocked_check(previous, receiver@, *site),
                "structural mutation lacks its immediately preceding iteration-lock check"@,
            ),
            None => Ok(()),
        },
        OperationKind::Check(runtime) => check(
            consumed(operations, index, runtime),
            "runtime check is not adjacent to its checked operation"@,
        ),
        _ => Ok(()),
    }
}

/// The operations of a block from `from` on, beside their neighbours.
pub open spec fn neighbours_check(
    p: &Program,
    function: Option<FunctionId>,
    f: &Function,
    operations: Seq<Operation>,
    from: int,
    int_type: TypeId,
    float_type: TypeId,
) -> Checked<()>
    decreases operations.len() - from,
{
    if from >= operations.len() {
        Ok(())
    } else {
        both(
            adjacent_check(p, function, f, operations, from, int_type, float_type),
            neighbours_check(p, function, f, operations, from + 1, int_type, float_type),
        )
    }
}

pub open spec fn sequence_check(
    p: &Program,
    function: Option<FunctionId>,
    f: &Function,
    operations: Seq<Operation>,
) -> Checked<
    (),
> {
    match primitive(p, PrimitiveType::Int) {
        Err(message) => Err(message),
        Ok(int_type) => match primitive(p, PrimitiveType::Float) {
            Err(message) => Err(message),
            Ok(float_type) => neighbours_check(p, function, f, operations, 0, int_type, float_type),
        },
    }
}

/// Whether an earlier alternative is of the other kind, tagged or untagged.
pub open spec fn mixed_before(alternatives: Seq<UnionAlternative>, count: int, tagged: bool) -> bool {
    exists|i: int|
        0 <= i < count && match (#[trigger] alternatives[i]).constructor {
            AlternativeConstructor::Untagged => tagged,
            AlternativeConstructor::Tagged(_) => !tagged,
            AlternativeConstructor::Error => false,
        }
}

/// Whether an earlier alternative is the same as the one given.
pub open spec fn alternative_before(
    alternatives: Seq<UnionAlternative>,
    count: int,
    constructor: ConstructorView,
) -> bool {
    exists|i: int| 0 <= i < count && (#[trigger] alternatives[i]).constructor@ == constructor
}

/// Whether an earlier untagged alternative has the payload.
pub open spec fn payload_before(alternatives: Seq<UnionAlternative>, count: int, payload: TypeId) -> bool {
    exists|i: int|
        0 <= i < count && (#[trigger] alternatives[i]).constructor is Untagged && alternatives[i].payload == payload
}

/// One alternative of a union.
pub open spec fn alternative_check(
    p: &Program,
    owner: Seq<char>,
    alternatives: Seq<UnionAlternative>,
    index: int,
) -> Checked<()> {
    let alternative = alternatives[index];
    match type_at(p, alternative.payload) {
        Err(message) => Err(message),
        Ok(payload) => match alternative.constructor {
            AlternativeConstructor::Untagged => if mixed_before(alternatives, index, false) {
                Err(owner + " mixes tagged and untagged alternatives"@)
            } else {
                check(
                    !payload_before(alternatives, index, alternative.payload),
                    owner + " repeats an untagged payload type"@,
                )
            },
            AlternativeConstructor::Tagged(tag) => if mixed_before(alternatives, index, true) {
                Err(owner + " mixes tagged and untagged alternatives"@)
            } else {
                check(
                    tag@.len() > 0 && tag@ != "Error"@ && !alternative_before(
                        alternatives,
                        index,
                        ConstructorView::Tagged(tag@),
                    ),
                    owner + " has an empty, reserved, or duplicate tag"@,
                )
            },
            AlternativeConstructor::Error => if index + 1 != alternatives.len() {
                Err(owner + " Error alternative is not last"@)
            } else {
                check(payload is Primitive, owner + " Error payload is not primitive"@)
            },
        },
    }
}

pub open spec fn each_alternative_check(
    p: &Program,
    owner: Seq<char>,
    alternatives: Seq<UnionAlternative>,
    from: int,
) -> Checked<()>
    decreases alternatives.len() - from,
{
    if from >= alternatives.len() {
        Ok(())
    } else {
        both(
            alternative_check(p, owner, alternatives, from),
            each_alternative_check(p, owner, alternatives, from + 1),
        )
    }
}

pub open spec fn alternatives_check(p: &Program, owner: Seq<char>, alternatives: Seq<UnionAlternative>) -> Checked<()> {
    if alternatives.len() < 2 {
        Err(owner + " union has fewer than two alternatives"@)
    } else {
        each_alternative_check(p, owner, alternatives, 0)
    }
}

pub open spec fn type_check(p: &Program, id: TypeId) -> Checked<()> {
    match &p.types@[id.0 as int] {
        Type::Unit => Ok(()),
        Type::Primitive(_) => Ok(()),
        Type::List(element) => both(type_at(p, *element), Ok(())),
        Type::Mapping { key, value } => both(type_at(p, *key), both(type_at(p, *value), Ok(()))),
        Type::Nominal(definition) => both(definition_at(p, *definition), Ok(())),
        Type::Union(alternatives) => alternatives_check(p, id.text(), alternatives@),
    }
}

/// A field can be held by reference only where its type is a struct.
pub open spec fn storage_is_legal(p: &Program, ty: TypeId, storage: MemberStorage) -> bool {
    ty.0 < p.types@.len() && (storage == MemberStorage::Inline || (match p.types@[ty.0 as int] {
        Type::Nominal(definition) => definition.0 < p.definitions@.len()
            && p.definitions@[definition.0 as int].layout is Struct,
        _ => false,
    }))
}

/// Whether an earlier field has the name.
pub open spec fn name_before(fields: Seq<StructField>, count: int, name: Seq<char>) -> bool {
    exists|i: int| 0 <= i < count && (#[trigger] fields[i]).name@ == name
}

pub open spec fn layout_fields_check(p: &Program, id: DefinitionId, fields: Seq<StructField>, from: int) -> Checked<()>
    decreases fields.len() - from,
{
    if from >= fields.len() {
        Ok(())
    } else {
        let field = fields[from];
        let shown = id.text() + " field"@ + decimal(from as nat);
        if field.name@.len() == 0 || name_before(fields, from, field.name@) {
            Err(shown + " has an empty or duplicate name"@)
        } else {
            both(
                type_at(p, field.ty),
                both(
                    check(
                        storage_is_legal(p, field.ty, field.storage),
                        shown + " has invalid storage for "@ + field.ty.text(),
                    ),
                    layout_fields_check(p, id, fields, from + 1),
                ),
            )
        }
    }
}

pub open spec fn layout_types_check(p: &Program, fields: Seq<TypeId>, from: int) -> Checked<()>
    decreases fields.len() - from,
{
    if from >= fields.len() {
        Ok(())
    } else {
        both(type_at(p, fields[from]), layout_types_check(p, fields, from + 1))
    }
}

pub open spec fn definition_check(p: &Program, id: DefinitionId) -> Checked<()> {
    let definition = p.definitions@[id.0 as int];
    if definition.name@.len() == 0 {
        Err(id.text() + " has an empty name"@)
    } else {
        match definition.layout {
            DefinitionLayout::Struct(fields) => if fields@.len() == 0 {
                Err(id.text() + " struct layout is empty"@)
            } else {
                layout_fields_check(p, id, fields@, 0)
            },
            DefinitionLayout::Tuple(fields) => if fields@.len() == 0 {
                Err(id.text() + " tuple layout is empty"@)
            } else {
                layout_types_check(p, fields@, 0)
            },
            DefinitionLayout::Union(alternatives) => alternatives_check(p, id.text(), alternatives@),
        }
    }
}

pub open spec fn parameters_check(f: &Function, from: int) -> Checked<()>
    decreases f.parameters@.len() - from,
{
    if from >= f.parameters@.len() {
        Ok(())
    } else {
        match local_at(f, f.parameters@[from]) {
            Err(message) => Err(message),
            Ok(local) => both(
                check(
                    local.origin == LocalOrigin::Parameter && !f.parameters@.take(from).contains(f.parameters@[from]),
                    "parameter list contains a duplicate or non-parameter local"@,
                ),
                parameters_check(f, from + 1),
            ),
        }
    }
}

pub open spec fn locals_check(p: &Program, f: &Function, from: int) -> Checked<()>
    decreases f.locals@.len() - from,
{
    if from >= f.locals@.len() {
        Ok(())
    } else {
        both(
            type_at(p, f.locals@[from].ty),
            both(
                check(
                    f.locals@[from].origin == LocalOrigin::Parameter ==> f.parameters@.contains(LocalId(from as usize)),
                    "_"@ + decimal(from as nat) + " is a parameter local missing from the signature"@,
                ),
                locals_check(p, f, from + 1),
            ),
        )
    }
}

/// The signature, the parameters and the locals of a function.
pub open spec fn header_check(p: &Program, f: &Function) -> Checked<()> {
    if f.name@.len() == 0 {
        Err("function name is empty"@)
    } else {
        both(
            type_at(p, f.result),
            match f.entry {
                None => Err("entry block is not set"@),
                Some(entry) => both(
                    block_check(f, entry),
                    both(parameters_check(f, 0), locals_check(p, f, 0)),
                ),
            },
        )
    }
}

/// Where in a block something is wrong.
#[derive(Clone, Copy, Debug, Eq, PartialEq, Structural)]
pub enum OperationSite {
    Operation(usize),
    Terminator,
}

/// What is wrong with a program, and where.
#[derive(Clone, Debug, Eq, PartialEq)]
pub struct ValidationError {
    pub function: Option<FunctionId>,
    pub block: Option<BlockId>,
    pub site: Option<OperationSite>,
    pub message: String,
}

/// The contents of a validation error.
pub struct ErrorView {
    pub function: Option<FunctionId>,
    pub block: Option<BlockId>,
    pub site: Option<OperationSite>,
    pub message: Seq<char>,
}

pub open spec fn function_text(function: Option<FunctionId>) -> Seq<char> {
    match function {
        Some(id) => " in "@ + id.text(),
        None => seq![],
    }
}

pub open spec fn block_text(block: Option<BlockId>) -> Seq<char> {
    match block {
        Some(id) => " "@ + id.text(),
        None => seq![],
    }
}

pub open spec fn site_text(site: Option<OperationSite>) -> Seq<char> {
    match site {
        Some(OperationSite::Operation(index)) => " op"@ + decimal(index as nat),
        Some(OperationSite::Terminator) => " terminator"@,
        None => seq![],
    }
}

impl ErrorView {
    /// How the error is shown.
    pub open spec fn text(&self) -> Seq<char> {
        "invalid IR"@ + function_text(self.function) + block_text(self.block) + site_text(self.site) + ": "@
            + self.message
    }
}

impl ValidationError {
    pub open spec fn view(&self) -> ErrorView {
        ErrorView { function: self.function, block: self.block, site: self.site, message: self.message@ }
    }

    pub fn to_string(&self) -> (result: String)
        ensures
            result@ == self@.text(),
    {
        let mut text = "invalid IR".to_owned();
        if let Some(function) = self.function {
            text.append(" in ");
            text.append(function.to_string().as_str());
        }
        assert(text@ == "invalid IR"@ + function_text(self.function));
        if let Some(block) = self.block {
            text.append(" ");
            text.append(block.to_string().as_str());
        }
        assert(text@ == "invalid IR"@ + function_text(self.function) + block_text(self.block));
        match self.site {
            Some(OperationSite::Operation(index)) => {
                text.append(" op");
                push_decimal(&mut text, index);
            },
            Some(OperationSite::Terminator) => text.append(" terminator"),
            None => {},
        }
        assert(text@ == "invalid IR"@ + function_text(self.function) + block_text(self.block) + site_text(self.site));
        text.append(": ");
        text.append(self.message.as_str());
        text
    }
}

/// A check, with where its error is.
pub open spec fn located(
    function: Option<FunctionId>,
    block: Option<BlockId>,
    site: Option<OperationSite>,
    checked: Checked<()>,
) -> Result<(), ErrorView> {
    match checked {
        Ok(_) => Ok(()),
        Err(message) => Err(ErrorView { function, block, site, message }),
    }
}

/// The second result where the first is a success.
pub open spec fn followed(first: Result<(), ErrorView>, second: Result<(), ErrorView>) -> Result<(), ErrorView> {
    match first {
        Ok(_) => second,
        Err(error) => Err(error),
    }
}

/// The operations of a block from `from` on, each on its own.
pub open spec fn operations_check(p: &Program, id: FunctionId, f: &Function, block: int, from: int) -> Result<
    (),
    ErrorView,
>
    decreases f.blocks@[block].operations@.len() - from,
{
    let operations = f.blocks@[block].operations@;
    if from >= operations.len() {
        Ok(())
    } else {
        followed(
            located(
                Some(id),
                Some(BlockId(block as usize)),
                Some(OperationSite::Operation(from as usize)),
                both(
                    location_check(p, operations[from].location),
                    operation_check(p, Some(id), f, &operations[from]),
                ),
            ),
            operations_check(p, id, f, block, from + 1),
        )
    }
}

/// Where an error about the neighbourhood of operations is shown: at the last operation of the
/// block, or, in an empty block, where the previous block left off.
pub open spec fn last_site(f: &Function, block: int) -> Option<OperationSite> {
    if f.blocks@[block].operations@.len() > 0 {
        Some(OperationSite::Operation((f.blocks@[block].operations@.len() - 1) as usize))
    } else if block > 0 {
        Some(OperationSite::Terminator)
    } else {
        None
    }
}

pub open spec fn ending_check(p: &Program, id: FunctionId, f: &Function, block: &BasicBlock) -> Checked<()> {
    match &block.terminator {
        None => Err("block is not terminated"@),
        Some(terminator) => both(
            location_check(p, terminator.location),
            terminator_check(p, Some(id), f, terminator),
        ),
    }
}

pub open spec fn basic_block_check(p: &Program, id: FunctionId, f: &Function, block: int) -> Result<(), ErrorView> {
    let shown = Some(BlockId(block as usize));
    followed(
        operations_check(p, id, f, block, 0),
        followed(
            located(
                Some(id),
                shown,
                last_site(f, block),
                sequence_check(p, Some(id), f, f.blocks@[block].operations@),
            ),
            located(
                Some(id),
                shown,
                Some(OperationSite::Terminator),
                ending_check(p, id, f, &f.blocks@[block]),
            ),
        ),
    )
}

pub open spec fn blocks_check(p: &Program, id: FunctionId, f: &Function, from: int) -> Result<(), ErrorView>
    decreases f.blocks@.len() - from,
{
    if from >= f.blocks@.len() {
        Ok(())
    } else {
        followed(basic_block_check(p, id, f, from), blocks_check(p, id, f, from + 1))
    }
}

pub open spec fn function_check(p: &Program, id: FunctionId) -> Result<(), ErrorView> {
    let f = &p.functions@[id.0 as int];
    followed(located(Some(id), None, None, header_check(p, f)), blocks_check(p, id, f, 0))
}

/// Whether an earlier function has the name.
pub open spec fn function_name_before(functions: Seq<Function>, count: int, name: Seq<char>) -> bool {
    exists|i: int| 0 <= i < count && (#[trigger] functions[i]).name@ == name
}

pub open spec fn functions_check(p: &Program, from: int) -> Result<(), ErrorView>
    decreases p.functions@.len() - from,
{
    if from >= p.functions@.len() {
        Ok(())
    } else {
        let id = FunctionId(from as usize);
        followed(
            located(
                Some(id),
                None,
                None,
                check(
                    !function_name_before(p.functions@, from, p.functions@[from].name@),
                    id.text() + " repeats a function name"@,
                ),
            ),
            followed(function_check(p, id), functions_check(p, from + 1)),
        )
    }
}

pub open spec fn location_entry_check(p: &Program, index: int) -> Checked<()> {
    let span = p.locations@[index];
    let shown = "loc"@ + decimal(index as nat);
    if span.start > span.end || span.end > p.source.byte_len {
        Err(
            shown + " has invalid byte span "@ + decimal(span.start as nat) + ".."@ + decimal(span.end as nat),
        )
    } else {
        check(
            !p.locations@.take(index).contains(span),
            shown + " duplicates an earlier source location"@,
        )
    }
}

pub open spec fn locations_check(p: &Program, from: int) -> Checked<()>
    decreases p.locations@.len() - from,
{
    if from >= p.locations@.len() {
        Ok(())
    } else {
        both(location_entry_check(p, from), locations_check(p, from + 1))
    }
}

pub open spec fn failure_entry_check(p: &Program, index: int) -> Checked<()> {
    let failure = p.failure_sites@[index];
    let shown = "fail"@ + decimal(index as nat);
    if failure.location.0 >= p.locations@.len() {
        Err(shown + " has invalid location "@ + failure.location.text())
    } else if failure.function.0 >= p.functions@.len() {
        Err(shown + " has invalid function "@ + failure.function.text())
    } else if failure.line == 0 || failure.column == 0 {
        Err(shown + " has an invalid line or column"@)
    } else {
        check(
            !failure_keys(p.failure_sites@.take(index)).contains(failure_key(failure)),
            shown + " duplicates an earlier failure site"@,
        )
    }
}

pub open spec fn failures_check(p: &Program, from: int) -> Checked<()>
    decreases p.failure_sites@.len() - from,
{
    if from >= p.failure_sites@.len() {
        Ok(())
    } else {
        both(failure_entry_check(p, from), failures_check(p, from + 1))
    }
}

pub open spec fn types_check(p: &Program, from: int) -> Checked<()>
    decreases p.types@.len() - from,
{
    if from >= p.types@.len() {
        Ok(())
    } else {
        both(
            type_check(p, TypeId(from as usize)),
            both(
                check(
                    !type_views(p.types@.take(from)).contains(p.types@[from]@),
                    "ty"@ + decimal(from as nat) + " duplicates an earlier canonical type"@,
                ),
                types_check(p, from + 1),
            ),
        )
    }
}

/// Whether an earlier definition has the name.
pub open spec fn definition_name_before(definitions: Seq<NominalDefinition>, count: int, name: Seq<char>) -> bool {
    exists|i: int| 0 <= i < count && (#[trigger] definitions[i]).name@ == name
}

pub open spec fn definitions_check(p: &Program, from: int) -> Checked<()>
    decreases p.definitions@.len() - from,
{
    if from >= p.definitions@.len() {
        Ok(())
    } else {
        both(
            check(
                !definition_name_before(p.definitions@, from, p.definitions@[from].name@),
                "def"@ + decimal(from as nat) + " repeats a nominal definition name"@,
            ),
            both(definition_check(p, DefinitionId(from as usize)), definitions_check(p, from + 1)),
        )
    }
}

pub open spec fn nominals_check(p: &Program, from: int) -> Checked<()>
    decreases p.definitions@.len() - from,
{
    if from >= p.definitions@.len() {
        Ok(())
    } else {
        both(nominal(p, DefinitionId(from as usize)), nominals_check(p, from + 1))
    }
}

pub open spec fn entry_check(p: &Program) -> Checked<()> {
    match p.entry {
        None => Err("entry function is not set"@),
        Some(entry) => both(function_at(p, entry), Ok(())),
    }
}

/// Everything of a program but its functions.
pub open spec fn tables_check(p: &Program) -> Checked<()> {
    if p.source.filename@.len() == 0 {
        Err("source filename is empty"@)
    } else {
        both(
            locations_check(p, 0),
            both(
                failures_check(p, 0),
                both(
                    types_check(p, 0),
                    both(definitions_check(p, 0), both(nominals_check(p, 0), entry_check(p))),
                ),
            ),
        )
    }
}

/// The first thing that is wrong with a program.
pub open spec fn program_check(p: &Program) -> Result<(), ErrorView> {
    followed(located(None, None, None, tables_check(p)), functions_check(p, 0))
}

} // verus!
