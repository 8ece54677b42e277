//! The validator: walks a program and reports the first thing that is wrong with it.

use crate::ir::{
    Aggregate, AlternativeConstructor, AlternativeId, BasicBlock, BinaryOperator, BlockId, BuiltinMethod,
    ConstantValue, ConstructorView, DefinitionId, DefinitionLayout, FailureOperation, FailureSite,
    FailureSiteId, FieldId, Function, FunctionId, IntegerOperation, Intrinsic, Local, LocalId, LocalOrigin,
    LocationId, MemberStorage, NominalDefinition, NumericConversion, Operand, Operation, OperationKind, Place,
    PrimitiveType, Program, Projection, RuntimeCheck, StructField, Terminator, TerminatorKind, Type, TypeId,
    UnaryOperator, UnionAlternative, failure_key, failure_keys, type_views,
};
use crate::ir::validation::{
    Checked, ErrorView, OperationSite, ValidationError, adjacent_check, aggregate_type, all_expected,
    alternative_before, alternatives_check, alternatives_of, arguments_check, binary_result, blocks_check,
    builtin_check, builtin_result, canonical, check, check_failures, check_operands, check_site, comparable,
    consumed, conversion_result, definition_at, definition_check, definition_name_before, definitions_check,
    each_alternative_check, ending_check, entries_check, failure_check, failures_check, field_before,
    function_at, function_check, function_name_before, functions_check, header_check, intrinsic_arguments,
    is_binary, is_division_check, is_numeric, is_ordered, is_overflow_check, is_primitive, is_remainder_check,
    is_shift_check, iterable_check, kind_at, last_site, layout_fields_check, layout_types_check,
    lemma_listing_definition, lemma_listing_type, local_at, local_expected, local_operand, locals_check,
    locations_check, membership, mixed_before, name_before, neighbours_check, nominal, nominals_check,
    operand_expected, operand_type, operands_expected, operation_check, operations_check, parameters_check,
    payload_before, payload_of, place_type, postchecked, prechecked, primitive, printable, printable_argument,
    program_check, projected_type, projection_type, runtime_check, sequence_check, storage_is_legal,
    struct_fields_check, target_before, targets_check, terminator_check, type_at, type_check, types_check,
    unary_result, unlisted_definitions, unlisted_types,
};
use crate::text::{Message, decimal, push_decimal, same_text};
use vstd::prelude::*;
use vstd::string::*;

verus! {

/// A walk over a program, with where it has come to.
struct Validator<'a> {
    program: &'a Program,
    function: Option<FunctionId>,
    block: Option<BlockId>,
    site: Option<OperationSite>,
}

/// Two texts behind one another.
fn joined(left: &str, right: &str) -> (result: String)
    ensures
        result@ == left@ + right@,
{
    let mut text = left.to_owned();
    text.append(right);
    text
}

impl<'a> Validator<'a> {
    /// The error with the message at the place where the walk is.
    spec fn failed(&self, message: Seq<char>) -> ErrorView {
        ErrorView { function: self.function, block: self.block, site: self.site, message }
    }

    /// A result that agrees with a check made at the place where the walk is.
    spec fn gives<T>(&self, result: Result<T, ValidationError>, expected: Checked<T>) -> bool {
        match expected {
            Ok(value) => result == Ok::<T, ValidationError>(value),
            Err(message) => result is Err && result->Err_0@ == self.failed(message),
        }
    }

    fn new(program: &'a Program) -> (result: Self)
        ensures
            result.program == program,
            result.function is None,
            result.block is None,
            result.site is None,
    {
        Validator { program, function: None, block: None, site: None }
    }

    fn error(&self, message: impl Message) -> (result: ValidationError)
        ensures
            result@ == self.failed(message.text()),
    {
        ValidationError {
            function: self.function,
            block: self.block,
            site: self.site,
            message: message.into_text(),
        }
    }

    fn ty(&self, id: TypeId) -> (result: Result<&'a Type, ValidationError>)
        ensures
            match type_at(self.program, id) {
                Ok(found) => result is Ok && *result->Ok_0 == found,
                Err(message) => result is Err && result->Err_0@ == self.failed(message),
            },
    {
        if id.0 < self.program.types.len() {
            Ok(&self.program.types[id.0])
        } else {
            Err(self.error(joined("invalid type identity ", id.to_string().as_str())))
        }
    }

    fn definition(&self, id: DefinitionId) -> (result: Result<&'a NominalDefinition, ValidationError>)
        ensures
            match definition_at(self.program, id) {
                Ok(found) => result is Ok && *result->Ok_0 == found,
                Err(message) => result is Err && result->Err_0@ == self.failed(message),
            },
    {
        if id.0 < self.program.definitions.len() {
            Ok(&self.program.definitions[id.0])
        } else {
            Err(self.error(joined("invalid definition identity ", id.to_string().as_str())))
        }
    }

    fn function(&self, id: FunctionId) -> (result: Result<&'a Function, ValidationError>)
        ensures
            match function_at(self.program, id) {
                Ok(found) => result is Ok && *result->Ok_0 == found,
                Err(message) => result is Err && result->Err_0@ == self.failed(message),
            },
    {
        if id.0 < self.program.functions.len() {
            Ok(&self.program.functions[id.0])
        } else {
            Err(self.error(joined("invalid function identity ", id.to_string().as_str())))
        }
    }

    fn local_in<'b>(&self, function: &'b Function, id: LocalId) -> (result: Result<&'b Local, ValidationError>)
        ensures
            match local_at(function, id) {
                Ok(found) => result is Ok && *result->Ok_0 == found,
                Err(message) => result is Err && result->Err_0@ == self.failed(message),
            },
    {
        if id.0 < function.locals.len() {
            Ok(&function.locals[id.0])
        } else {
            Err(self.error(joined("invalid local identity ", id.to_string().as_str())))
        }
    }

    fn block_in(&self, function: &Function, id: BlockId) -> (result: Result<(), ValidationError>)
        ensures
            self.gives(result, crate::ir::validation::block_check(function, id)),
    {
        if id.0 < function.blocks.len() {
            Ok(())
        } else {
            Err(self.error(joined("invalid block identity ", id.to_string().as_str())))
        }
    }

    fn location(&self, id: LocationId) -> (result: Result<(), ValidationError>)
        ensures
            self.gives(result, crate::ir::validation::location_check(self.program, id)),
    {
        if id.0 < self.program.locations.len() {
            Ok(())
        } else {
            Err(self.error(joined("invalid location identity ", id.to_string().as_str())))
        }
    }

    fn primitive_or_unit(&self, wanted: Type) -> (result: Result<TypeId, ValidationError>)
        ensures
            self.gives(result, canonical(self.program, wanted@)),
    {
        match self.program.find_type(&wanted) {
            Some(id) => Ok(id),
            None => Err(self.error("required canonical primitive or unit type is missing")),
        }
    }

    fn primitive(&self, wanted: PrimitiveType) -> (result: Result<TypeId, ValidationError>)
        ensures
            self.gives(result, primitive(self.program, wanted)),
    {
        self.primitive_or_unit(Type::Primitive(wanted))
    }

    fn nominal_type(&self, definition: DefinitionId) -> (result: Result<TypeId, ValidationError>)
        ensures
            self.gives(result, nominal(self.program, definition)),
    {
        match self.program.find_type(&Type::Nominal(definition)) {
            Some(id) => Ok(id),
            None => Err(
                self.error(joined(definition.to_string().as_str(), " has no canonical nominal type")),
            ),
        }
    }

    fn is_primitive(&self, ty: TypeId, wanted: PrimitiveType) -> (result: bool)
        ensures
            result == is_primitive(self.program, ty, wanted),
    {
        if ty.0 >= self.program.types.len() {
            return false;
        }
        match &self.program.types[ty.0] {
            Type::Primitive(found) => *found == wanted,
            _ => false,
        }
    }

    fn is_numeric(&self, ty: TypeId) -> (result: bool)
        ensures
            result == is_numeric(self.program, ty),
    {
        self.is_primitive(ty, PrimitiveType::Int) || self.is_primitive(ty, PrimitiveType::Float)
    }

    fn supports_ordering(&self, ty: TypeId) -> (result: bool)
        ensures
            result == is_ordered(self.program, ty),
    {
        self.is_numeric(ty) || self.is_primitive(ty, PrimitiveType::Str) || self.is_primitive(ty, PrimitiveType::Char)
    }

    fn membership_matches(&self, item: TypeId, container: TypeId) -> (result: bool)
        ensures
            result == membership(self.program, item, container),
    {
        if container.0 >= self.program.types.len() {
            return false;
        }
        match &self.program.types[container.0] {
            Type::List(element) => *element == item,
            Type::Mapping { key, .. } => *key == item,
            _ => false,
        }
    }

    fn supports_equality(&self, ty: TypeId, visiting: &mut Vec<DefinitionId>) -> (result: bool)
        ensures
            result == comparable(self.program, ty, old(visiting)@),
            final(visiting)@ == old(visiting)@,
        decreases unlisted_definitions(self.program.definitions.len() as nat, old(visiting)@),
    {
        if ty.0 >= self.program.types.len() {
            return false;
        }
        match &self.program.types[ty.0] {
            Type::Unit => true,
            Type::Primitive(_) => true,
            Type::List(_) => true,
            Type::Mapping { .. } => true,
            Type::Nominal(definition) => {
                if listed(visiting, *definition) || definition.0 >= self.program.definitions.len() {
                    return false;
                }
                match &self.program.definitions[definition.0].layout {
                    DefinitionLayout::Struct(_) => true,
                    DefinitionLayout::Tuple(fields) => {
                        proof {
                            lemma_listing_definition(
                                self.program.definitions.len() as nat,
                                visiting@,
                                *definition,
                            );
                        }
                        let ghost within = visiting@;
                        visiting.push(*definition);
                        let mut result = true;
                        let mut index: usize = 0;
                        while result && index < fields.len()
                            invariant
                                index <= fields@.len(),
                                visiting@ == within.push(*definition),
                                unlisted_definitions(self.program.definitions.len() as nat, visiting@)
                                    < unlisted_definitions(self.program.definitions.len() as nat, within),
                                result ==> forall|i: int|
                                    0 <= i < index ==> comparable(
                                        self.program,
                                        #[trigger] fields@[i],
                                        within.push(*definition),
                                    ),
                                !result ==> exists|i: int|
                                    0 <= i < fields@.len() && !comparable(
                                        self.program,
                                        #[trigger] fields@[i],
                                        within.push(*definition),
                                    ),
                                within == old(visiting)@,
                            decreases fields@.len() - index,
                        {
                            result = self.supports_equality(fields[index], visiting);
                            index = index + 1;
                        }
                        visiting.pop();
                        assert(visiting@ =~= within);
                        result
                    },
                    DefinitionLayout::Union(_) => false,
                }
            },
            Type::Union(_) => false,
        }
    }

    fn is_printable(&self, ty: TypeId, visiting: &mut Vec<DefinitionId>, unions: &mut Vec<TypeId>) -> (result: bool)
        ensures
            result == printable(self.program, ty, old(visiting)@, old(unions)@),
            final(visiting)@ == old(visiting)@,
            final(unions)@ == old(unions)@,
        decreases
            unlisted_definitions(self.program.definitions.len() as nat, old(visiting)@) + unlisted_types(
                self.program.types.len() as nat,
                old(unions)@,
            ),
            1nat,
            0nat,
    {
        if ty.0 >= self.program.types.len() {
            return false;
        }
        match &self.program.types[ty.0] {
            Type::Unit => true,
            Type::Primitive(_) => true,
            Type::Union(alternatives) => {
                if listed_type(unions, ty) {
                    return false;
                }
                proof {
                    lemma_listing_type(self.program.types.len() as nat, unions@, ty);
                }
                let ghost outer = unions@;
                unions.push(ty);
                let result = self.are_printable(alternatives, visiting, unions);
                unions.pop();
                assert(unions@ =~= outer);
                result
            },
            Type::Nominal(definition) => {
                if listed(visiting, *definition) || definition.0 >= self.program.definitions.len() {
                    return false;
                }
                proof {
                    lemma_listing_definition(self.program.definitions.len() as nat, visiting@, *definition);
                }
                let ghost within = visiting@;
                visiting.push(*definition);
                let result = match &self.program.definitions[definition.0].layout {
                    DefinitionLayout::Tuple(fields) => {
                        let mut result = true;
                        let mut index: usize = 0;
                        while result && index < fields.len()
                            invariant
                                index <= fields@.len(),
                                visiting@ == within.push(*definition),
                                unions@ == old(unions)@,
                                unlisted_definitions(self.program.definitions.len() as nat, visiting@)
                                    < unlisted_definitions(self.program.definitions.len() as nat, within),
                                result ==> forall|i: int|
                                    0 <= i < index ==> printable(
                                        self.program,
                                        #[trigger] fields@[i],
                                        within.push(*definition),
                                        unions@,
                                    ),
                                !result ==> exists|i: int|
                                    0 <= i < fields@.len() && !printable(
                                        self.program,
                                        #[trigger] fields@[i],
                                        within.push(*definition),
                                        unions@,
                                    ),
                                within == old(visiting)@,
                            decreases fields@.len() - index,
                        {
                            result = self.is_printable(fields[index], visiting, unions);
                            index = index + 1;
                        }
                        result
                    },
                    DefinitionLayout::Union(alternatives) => self.are_printable(alternatives, visiting, unions),
                    DefinitionLayout::Struct(_) => false,
                };
                visiting.pop();
                assert(visiting@ =~= within);
                result
            },
            Type::List(_) => false,
            Type::Mapping { .. } => false,
        }
    }

    fn are_printable(
        &self,
        alternatives: &Vec<UnionAlternative>,
        visiting: &mut Vec<DefinitionId>,
        unions: &mut Vec<TypeId>,
    ) -> (result: bool)
        ensures
            result == forall|i: int|
                0 <= i < alternatives@.len() ==> printable(
                    self.program,
                    (#[trigger] alternatives@[i]).payload,
                    old(visiting)@,
                    old(unions)@,
                ),
            final(visiting)@ == old(visiting)@,
            final(unions)@ == old(unions)@,
        decreases
            unlisted_definitions(self.program.definitions.len() as nat, old(visiting)@) + unlisted_types(
                self.program.types.len() as nat,
                old(unions)@,
            ),
            2nat,
            0nat,
    {
        let mut index: usize = 0;
        while index < alternatives.len()
            invariant
                index <= alternatives@.len(),
                visiting@ == old(visiting)@,
                unions@ == old(unions)@,
                forall|i: int|
                    0 <= i < index ==> printable(
                        self.program,
                        (#[trigger] alternatives@[i]).payload,
                        old(visiting)@,
                        old(unions)@,
                    ),
            decreases alternatives@.len() - index,
        {
            if !self.is_printable(alternatives[index].payload, visiting, unions) {
                return false;
            }
            index = index + 1;
        }
        true
    }
}

fn listed(definitions: &Vec<DefinitionId>, wanted: DefinitionId) -> (result: bool)
    ensures
        result == definitions@.contains(wanted),
{
    let mut index: usize = 0;
    while index < definitions.len()
        invariant
            index <= definitions@.len(),
            forall|i: int| 0 <= i < index ==> definitions@[i] != wanted,
        decreases definitions@.len() - index,
    {
        if definitions[index] == wanted {
            return true;
        }
        index = index + 1;
    }
    false
}

fn listed_type(types: &Vec<TypeId>, wanted: TypeId) -> (result: bool)
    ensures
        result == types@.contains(wanted),
{
    let mut index: usize = 0;
    while index < types.len()
        invariant
            index <= types@.len(),
            forall|i: int| 0 <= i < index ==> types@[i] != wanted,
        decreases types@.len() - index,
    {
        if types[index] == wanted {
            return true;
        }
        index = index + 1;
    }
    false
}

impl<'a> Validator<'a> {
    fn union_alternatives(&self, ty: TypeId) -> (result: Result<&'a Vec<UnionAlternative>, ValidationError>)
        ensures
            match alternatives_of(self.program, ty) {
                Ok(found) => result is Ok && result->Ok_0@ == found,
                Err(message) => result is Err && result->Err_0@ == self.failed(message),
            },
    {
        match self.ty(ty)? {
            Type::Union(alternatives) => Ok(alternatives),
            Type::Nominal(definition) => match &self.definition(*definition)?.layout {
                DefinitionLayout::Union(alternatives) => Ok(alternatives),
                _ => Err(self.error(joined(ty.to_string().as_str(), " is not a union type"))),
            },
            _ => Err(self.error(joined(ty.to_string().as_str(), " is not a union type"))),
        }
    }

    /// The payload of an alternative.
    fn alternative(&self, union: TypeId, alternative: AlternativeId) -> (result: Result<TypeId, ValidationError>)
        ensures
            self.gives(result, payload_of(self.program, union, alternative)),
    {
        let alternatives = self.union_alternatives(union)?;
        if alternative.0 < alternatives.len() {
            Ok(alternatives[alternative.0].payload)
        } else {
            Err(self.error(joined("invalid alternative identity ", alternative.to_string().as_str())))
        }
    }

    fn failure_site(&self, id: FailureSiteId, operation: FailureOperation) -> (result: Result<(), ValidationError>)
        ensures
            self.gives(result, failure_check(self.program, self.function, id, seq![operation])),
            result is Ok ==> id.0 < self.program.failure_sites@.len(),
    {
        let mut allowed: Vec<FailureOperation> = Vec::new();
        allowed.push(operation);
        assert(allowed@ =~= seq![operation]);
        self.failure_site_one_of(id, &allowed)
    }

    fn failure_site_one_of(&self, id: FailureSiteId, operations: &Vec<FailureOperation>) -> (result: Result<
        (),
        ValidationError,
    >)
        ensures
            self.gives(result, failure_check(self.program, self.function, id, operations@)),
            result is Ok ==> id.0 < self.program.failure_sites@.len(),
    {
        if id.0 >= self.program.failure_sites.len() {
            return Err(self.error(joined("invalid failure-site identity ", id.to_string().as_str())));
        }
        let site = self.program.failure_sites[id.0];
        let ours = match self.function {
            Some(function) => site.function == function,
            None => false,
        };
        if !ours {
            return Err(self.error(joined(id.to_string().as_str(), " belongs to a different function")));
        }
        let mut index: usize = 0;
        while index < operations.len()
            invariant
                index <= operations@.len(),
                forall|i: int| 0 <= i < index ==> operations@[i] != site.operation,
                id.0 < self.program.failure_sites@.len(),
                site == self.program.failure_sites@[id.0 as int],
                Some(site.function) == self.function,
            decreases operations@.len() - index,
        {
            if operations[index] == site.operation {
                return Ok(());
            }
            index = index + 1;
        }
        Err(self.error(joined(id.to_string().as_str(), " operation disagrees with its use")))
    }

    fn expect_local(&self, function: &Function, local: LocalId, expected: TypeId, description: &str) -> (result: Result<
        (),
        ValidationError,
    >)
        ensures
            self.gives(result, local_expected(function, local, expected, description@)),
    {
        if self.local_in(function, local)?.ty != expected {
            return Err(self.error(joined(description, " type does not match destination")));
        }
        Ok(())
    }

    fn destination(&self, function: &Function, destination: LocalId, expected: TypeId, description: &str) -> (result:
        Result<(), ValidationError>)
        ensures
            self.gives(result, local_expected(function, destination, expected, description@)),
    {
        self.expect_local(function, destination, expected, description)
    }

    /// The type behind one projection.
    fn projection(&self, function: &Function, current: TypeId, projection: Projection) -> (result: Result<
        TypeId,
        ValidationError,
    >)
        ensures
            self.gives(result, projection_type(self.program, self.function, function, current, projection)),
    {
        match projection {
            Projection::StructField { definition, field, storage } => {
                let matches = match self.ty(current)? {
                    Type::Nominal(found) => *found == definition,
                    _ => false,
                };
                if !matches {
                    return Err(self.error("struct projection definition does not match the projected type"));
                }
                match &self.definition(definition)?.layout {
                    DefinitionLayout::Struct(fields) => {
                        if field.0 >= fields.len() {
                            return Err(self.error(joined("invalid field identity ", field.to_string().as_str())));
                        }
                        if fields[field.0].storage != storage {
                            return Err(self.error("struct projection storage disagrees with its field"));
                        }
                        Ok(fields[field.0].ty)
                    },
                    _ => Err(self.error("struct projection names a non-struct definition")),
                }
            },
            Projection::TupleField { definition, field } => {
                let matches = match self.ty(current)? {
                    Type::Nominal(found) => *found == definition,
                    _ => false,
                };
                if !matches {
                    return Err(self.error("tuple projection definition does not match the projected type"));
                }
                match &self.definition(definition)?.layout {
                    DefinitionLayout::Tuple(fields) => {
                        if field.0 >= fields.len() {
                            return Err(self.error(joined("invalid field identity ", field.to_string().as_str())));
                        }
                        Ok(fields[field.0])
                    },
                    _ => Err(self.error("tuple projection names a non-tuple definition")),
                }
            },
            Projection::ListIndex { index, failure } => {
                self.expect_local(function, index, self.primitive(PrimitiveType::Int)?, "list index")?;
                self.failure_site(failure, FailureOperation::ListIndex)?;
                match self.ty(current)? {
                    Type::List(element) => Ok(*element),
                    _ => Err(self.error("list-index projection is applied to a non-list")),
                }
            },
            Projection::MapIndex { key, failure } => match self.ty(current)? {
                Type::Mapping { key: expected, value } => {
                    self.expect_local(function, key, *expected, "map key")?;
                    self.failure_site(failure, FailureOperation::MapIndex)?;
                    Ok(*value)
                },
                _ => Err(self.error("map-index projection is applied to a non-map")),
            },
        }
    }

    fn place_type(&self, function: &Function, place: &Place) -> (result: Result<TypeId, ValidationError>)
        ensures
            self.gives(result, place_type(self.program, self.function, function, place@)),
    {
        let start = self.local_in(function, place.local)?.ty;
        let mut current = start;
        let mut index: usize = 0;
        while index < place.projections.len()
            invariant
                index <= place.projections@.len(),
                local_at(function, place.local) is Ok,
                local_at(function, place.local)->Ok_0.ty == start,
                projected_type(self.program, self.function, function, start, place.projections@, index as nat) == Ok::<
                    TypeId,
                    Seq<char>,
                >(current),
            decreases place.projections@.len() - index,
        {
            let step = self.projection(function, current, place.projections[index]);
            proof {
                let here = projection_type(
                    self.program,
                    self.function,
                    function,
                    current,
                    place.projections@[index as int],
                );
                assert(projected_type(self.program, self.function, function, start, place.projections@, (index + 1) as nat)
                    == here);
                if here is Err {
                    lemma_projection_stops(
                        self.program,
                        self.function,
                        function,
                        start,
                        place.projections@,
                        (index + 1) as nat,
                        place.projections@.len(),
                        here->Err_0,
                    );
                }
            }
            current = step?;
            index = index + 1;
        }
        Ok(current)
    }

    fn operand_type(&self, function: &Function, operand: &Operand) -> (result: Result<TypeId, ValidationError>)
        ensures
            self.gives(result, operand_type(self.program, self.function, function, operand)),
    {
        match operand {
            Operand::Copy(place) => self.place_type(function, place),
            Operand::Constant(constant) => {
                let ty = self.ty(constant.ty)?;
                let valid = match (ty, &constant.value) {
                    (Type::Unit, ConstantValue::Unit) => true,
                    (Type::Primitive(PrimitiveType::Int), ConstantValue::Integer(_)) => true,
                    (Type::Primitive(PrimitiveType::Float), ConstantValue::Float(_)) => true,
                    (Type::Primitive(PrimitiveType::Str), ConstantValue::String(_)) => true,
                    (Type::Primitive(PrimitiveType::Char), ConstantValue::Character(byte)) => *byte <= 127,
                    (Type::Primitive(PrimitiveType::Bool), ConstantValue::Boolean(_)) => true,
                    _ => false,
                };
                if !valid {
                    return Err(self.error("constant value does not agree with its type"));
                }
                Ok(constant.ty)
            },
        }
    }

    fn expect_operand(&self, function: &Function, operand: &Operand, expected: TypeId, description: &str) -> (result:
        Result<(), ValidationError>)
        ensures
            self.gives(
                result,
                operand_expected(self.program, self.function, function, operand, expected, description@),
            ),
    {
        if self.operand_type(function, operand)? != expected {
            return Err(self.error(joined(description, " has the wrong type")));
        }
        Ok(())
    }

    fn conversion_result(&self, conversion: NumericConversion, source: TypeId) -> (result: Result<
        TypeId,
        ValidationError,
    >)
        ensures
            self.gives(result, conversion_result(self.program, conversion, source)),
    {
        match conversion {
            NumericConversion::IntToFloat => if self.is_primitive(source, PrimitiveType::Int) {
                self.primitive(PrimitiveType::Float)
            } else {
                Err(self.error("numeric conversion has the wrong operand type"))
            },
            NumericConversion::FloatToInt => if self.is_primitive(source, PrimitiveType::Float) {
                self.primitive(PrimitiveType::Int)
            } else {
                Err(self.error("numeric conversion has the wrong operand type"))
            },
        }
    }
}

/// Projections behind one that fails do not change the error.
proof fn lemma_projection_stops(
    p: &Program,
    function: Option<FunctionId>,
    f: &Function,
    start: TypeId,
    projections: Seq<Projection>,
    count: nat,
    total: nat,
    message: Seq<char>,
)
    requires
        count <= total,
        projected_type(p, function, f, start, projections, count) == Err::<TypeId, Seq<char>>(message),
    ensures
        projected_type(p, function, f, start, projections, total) == Err::<TypeId, Seq<char>>(message),
    decreases total,
{
    if count < total {
        lemma_projection_stops(p, function, f, start, projections, count, (total - 1) as nat, message);
    }
}

impl<'a> Validator<'a> {
    fn aggregate_fields(
        &self,
        function: &Function,
        layout: &Vec<StructField>,
        fields: &Vec<(FieldId, Operand)>,
    ) -> (result:
        Result<(), ValidationError>)
        ensures
            self.gives(
                result,
                struct_fields_check(self.program, self.function, function, layout@, fields@, 0),
            ),
    {
        let mut index: usize = 0;
        while index < fields.len()
            invariant
                index <= fields@.len(),
                struct_fields_check(self.program, self.function, function, layout@, fields@, 0)
                    == struct_fields_check(self.program, self.function, function, layout@, fields@, index as int),
            decreases fields@.len() - index,
        {
            let field = fields[index].0;
            if field.0 >= layout.len() {
                return Err(self.error(joined("invalid field identity ", field.to_string().as_str())));
            }
            let mut earlier: usize = 0;
            while earlier < index
                invariant
                    earlier <= index < fields@.len(),
                    forall|i: int| 0 <= i < earlier ==> (#[trigger] fields@[i]).0 != field,
                    field == fields@[index as int].0,
                    field.0 < layout@.len(),
                    struct_fields_check(self.program, self.function, function, layout@, fields@, 0)
                        == struct_fields_check(self.program, self.function, function, layout@, fields@, index as int),
                decreases index - earlier,
            {
                if fields[earlier].0 == field {
                    assert(field_before(fields@, index as int, field));
                    return Err(self.error("struct aggregate repeats a field"));
                }
                earlier = earlier + 1;
            }
            assert(!field_before(fields@, index as int, field));
            self.expect_operand(function, &fields[index].1, layout[field.0].ty, "struct field")?;
            index = index + 1;
        }
        Ok(())
    }

    fn expect_each(
        &self,
        function: &Function,
        operands: &Vec<Operand>,
        expected: &Vec<TypeId>,
        description: &str,
    ) -> (result:
        Result<(), ValidationError>)
        ensures
            self.gives(
                result,
                operands_expected(self.program, self.function, function, operands@, expected@, 0, description@),
            ),
    {
        let mut index: usize = 0;
        while index < operands.len() && index < expected.len()
            invariant
                index <= operands@.len(),
                operands_expected(self.program, self.function, function, operands@, expected@, 0, description@)
                    == operands_expected(
                    self.program,
                    self.function,
                    function,
                    operands@,
                    expected@,
                    index as int,
                    description@,
                ),
            decreases operands@.len() - index,
        {
            self.expect_operand(function, &operands[index], expected[index], description)?;
            index = index + 1;
        }
        Ok(())
    }

    fn expect_all(&self, function: &Function, operands: &Vec<Operand>, expected: TypeId, description: &str) -> (result:
        Result<(), ValidationError>)
        ensures
            self.gives(
                result,
                all_expected(self.program, self.function, function, operands@, expected, 0, description@),
            ),
    {
        let mut index: usize = 0;
        while index < operands.len()
            invariant
                index <= operands@.len(),
                all_expected(self.program, self.function, function, operands@, expected, 0, description@)
                    == all_expected(
                    self.program,
                    self.function,
                    function,
                    operands@,
                    expected,
                    index as int,
                    description@,
                ),
            decreases operands@.len() - index,
        {
            self.expect_operand(function, &operands[index], expected, description)?;
            index = index + 1;
        }
        Ok(())
    }

    fn expect_entries(
        &self,
        function: &Function,
        entries: &Vec<(Operand, Operand)>,
        key: TypeId,
        value: TypeId,
    ) -> (result:
        Result<(), ValidationError>)
        ensures
            self.gives(result, entries_check(self.program, self.function, function, entries@, key, value, 0)),
    {
        let mut index: usize = 0;
        while index < entries.len()
            invariant
                index <= entries@.len(),
                entries_check(self.program, self.function, function, entries@, key, value, 0) == entries_check(
                    self.program,
                    self.function,
                    function,
                    entries@,
                    key,
                    value,
                    index as int,
                ),
            decreases entries@.len() - index,
        {
            self.expect_operand(function, &entries[index].0, key, "map key")?;
            self.expect_operand(function, &entries[index].1, value, "map value")?;
            index = index + 1;
        }
        Ok(())
    }

    fn validate_aggregate(
        &self,
        function: &Function,
        aggregate: &Aggregate,
    ) -> (result: Result<TypeId, ValidationError>)
        ensures
            self.gives(result, aggregate_type(self.program, self.function, function, aggregate)),
    {
        match aggregate {
            Aggregate::Struct { definition, fields } => match &self.definition(*definition)?.layout {
                DefinitionLayout::Struct(layout) => {
                    if fields.len() != layout.len() {
                        return Err(self.error("struct aggregate is incomplete"));
                    }
                    self.aggregate_fields(function, layout, fields)?;
                    self.nominal_type(*definition)
                },
                _ => Err(self.error("struct aggregate names a non-struct definition")),
            },
            Aggregate::Tuple { definition, elements } => match &self.definition(*definition)?.layout {
                DefinitionLayout::Tuple(layout) => {
                    if elements.len() != layout.len() {
                        return Err(self.error("tuple aggregate arity does not match layout"));
                    }
                    self.expect_each(function, elements, layout, "tuple field")?;
                    self.nominal_type(*definition)
                },
                _ => Err(self.error("tuple aggregate names a non-tuple definition")),
            },
            Aggregate::List { ty, elements } => match self.ty(*ty)? {
                Type::List(element) => {
                    self.expect_all(function, elements, *element, "list element")?;
                    Ok(*ty)
                },
                _ => Err(self.error("list aggregate has a non-list type")),
            },
            Aggregate::Mapping { ty, entries } => match self.ty(*ty)? {
                Type::Mapping { key, value } => {
                    self.expect_entries(function, entries, *key, *value)?;
                    Ok(*ty)
                },
                _ => Err(self.error("map aggregate has a non-map type")),
            },
        }
    }

    /// The type that a built-in method returns.
    fn builtin_result(
        &self,
        function: &Function,
        method: BuiltinMethod,
        receiver: &Type,
        arguments: &Vec<Operand>,
        unit_type: TypeId,
        int_type: TypeId,
    ) -> (result: Result<TypeId, ValidationError>)
        ensures
            self.gives(
                result,
                builtin_result(
                    self.program,
                    self.function,
                    function,
                    method,
                    *receiver,
                    arguments@,
                    unit_type,
                    int_type,
                ),
            ),
    {
        let count = arguments.len();
        match (method, receiver) {
            (BuiltinMethod::ListAppend, Type::List(element)) if count == 1 => {
                self.expect_operand(function, &arguments[0], *element, "append argument")?;
                Ok(unit_type)
            },
            (BuiltinMethod::ListRemoveIndex, Type::List(_)) if count == 1 => {
                self.expect_operand(function, &arguments[0], int_type, "list index")?;
                Ok(unit_type)
            },
            (BuiltinMethod::ListLen, Type::List(_)) if count == 0 => Ok(int_type),
            (BuiltinMethod::MapRemoveKey, Type::Mapping { key, .. }) if count == 1 => {
                self.expect_operand(function, &arguments[0], *key, "map key")?;
                Ok(unit_type)
            },
            (BuiltinMethod::MapLen, Type::Mapping { .. }) if count == 0 => Ok(int_type),
            (BuiltinMethod::StrLen, Type::Primitive(PrimitiveType::Str)) if count == 0 => Ok(int_type),
            _ => Err(self.error("built-in receiver or arguments do not match its signature")),
        }
    }

    fn validate_builtin(
        &self,
        function: &Function,
        destination: LocalId,
        method: BuiltinMethod,
        receiver: &Operand,
        arguments: &Vec<Operand>,
        failure: Option<FailureSiteId>,
    ) -> (result: Result<(), ValidationError>)
        ensures
            self.gives(
                result,
                builtin_check(
                    self.program,
                    self.function,
                    function,
                    destination,
                    method,
                    receiver,
                    arguments@,
                    failure,
                ),
            ),
            result is Ok ==> (failure matches Some(site) ==> site.0 < self.program.failure_sites@.len()),
    {
        let receiver_type = self.operand_type(function, receiver)?;
        let unit_type = self.primitive_or_unit(Type::Unit)?;
        let int_type = self.primitive(PrimitiveType::Int)?;
        let result = self.builtin_result(function, method, self.ty(receiver_type)?, arguments, unit_type, int_type)?;
        let expected = match method {
            BuiltinMethod::ListAppend => Some(FailureOperation::ListAppend),
            BuiltinMethod::ListRemoveIndex => Some(FailureOperation::ListRemoveIndex),
            BuiltinMethod::MapRemoveKey => Some(FailureOperation::MapRemoveKey),
            BuiltinMethod::ListLen => None,
            BuiltinMethod::MapLen => None,
            BuiltinMethod::StrLen => None,
        };
        match (failure, expected) {
            (Some(site), Some(operation)) => self.failure_site(site, operation)?,
            (None, None) => {},
            _ => return Err(self.error("built-in failure attribution does not match its operation")),
        }
        self.destination(function, destination, result, "built-in call")
    }

    fn validate_check(&self, function: &Function, check: &RuntimeCheck) -> (result: Result<(), ValidationError>)
        ensures
            self.gives(result, runtime_check(self.program, self.function, function, check)),
            result is Ok ==> check_site(check).0 < self.program.failure_sites@.len(),
    {
        let int_type = self.primitive(PrimitiveType::Int)?;
        let mut allowed: Vec<FailureOperation> = Vec::new();
        let failure = match check {
            RuntimeCheck::IntegerOverflow { operation, failure, .. } => {
                allowed.push(
                    match operation {
                        IntegerOperation::Add => FailureOperation::IntegerAdd,
                        IntegerOperation::Subtract => FailureOperation::IntegerSubtract,
                        IntegerOperation::Multiply => FailureOperation::IntegerMultiply,
                        IntegerOperation::ShiftLeft => FailureOperation::ShiftLeft,
                    },
                );
                *failure
            },
            RuntimeCheck::IntegerNegation { failure, .. } => {
                allowed.push(FailureOperation::IntegerNegation);
                *failure
            },
            RuntimeCheck::Division { failure, .. } => {
                allowed.push(FailureOperation::IntegerDivision);
                allowed.push(FailureOperation::FloatDivision);
                *failure
            },
            RuntimeCheck::Remainder { failure, .. } => {
                allowed.push(FailureOperation::IntegerRemainder);
                *failure
            },
            RuntimeCheck::ShiftRange { failure, .. } => {
                allowed.push(FailureOperation::ShiftLeft);
                allowed.push(FailureOperation::ShiftRight);
                *failure
            },
            RuntimeCheck::FiniteFloat { failure, .. } => {
                allowed.push(FailureOperation::FloatAdd);
                allowed.push(FailureOperation::FloatSubtract);
                allowed.push(FailureOperation::FloatMultiply);
                allowed.push(FailureOperation::FloatDivision);
                *failure
            },
            RuntimeCheck::NumericConversion { failure, .. } => {
                allowed.push(FailureOperation::FloatToInt);
                *failure
            },
            RuntimeCheck::IterationUnlocked { failure, .. } => {
                allowed.push(FailureOperation::ListAppend);
                allowed.push(FailureOperation::ListRemoveIndex);
                allowed.push(FailureOperation::MapRemoveKey);
                *failure
            },
        };
        assert(allowed@ =~= check_failures(check));
        self.failure_site_one_of(failure, &allowed)?;
        self.check_operands(function, check, int_type)
    }

    fn check_operands(&self, function: &Function, check: &RuntimeCheck, int_type: TypeId) -> (result: Result<
        (),
        ValidationError,
    >)
        ensures
            self.gives(result, check_operands(self.program, self.function, function, check, int_type)),
    {
        match check {
            RuntimeCheck::IntegerOverflow { left, right, .. } => {
                self.expect_operand(function, left, int_type, "overflow operand")?;
                self.expect_operand(function, right, int_type, "overflow operand")
            },
            RuntimeCheck::IntegerNegation { operand, .. } => self.expect_operand(
                function,
                operand,
                int_type,
                "integer check operand",
            ),
            RuntimeCheck::ShiftRange { amount, .. } => self.expect_operand(
                function,
                amount,
                int_type,
                "integer check operand",
            ),
            RuntimeCheck::Division { left, right, failure } => {
                let ty = self.operand_type(function, left)?;
                if !self.is_numeric(ty) {
                    return Err(self.error("division check operand is not numeric"));
                }
                let expected = if ty == int_type {
                    FailureOperation::IntegerDivision
                } else {
                    FailureOperation::FloatDivision
                };
                self.failure_site(*failure, expected)?;
                self.expect_operand(function, right, ty, "division check operand")
            },
            RuntimeCheck::Remainder { left, right, .. } => {
                self.expect_operand(function, left, int_type, "remainder operand")?;
                self.expect_operand(function, right, int_type, "remainder operand")
            },
            RuntimeCheck::FiniteFloat { operand, .. } => {
                let float_type = self.primitive(PrimitiveType::Float)?;
                self.expect_operand(function, operand, float_type, "finite-float operand")
            },
            RuntimeCheck::NumericConversion { operand, conversion, .. } => {
                let source = self.operand_type(function, operand)?;
                self.conversion_result(*conversion, source)?;
                Ok(())
            },
            RuntimeCheck::IterationUnlocked { receiver, .. } => {
                let ty = self.operand_type(function, receiver)?;
                match self.ty(ty)? {
                    Type::List(_) => Ok(()),
                    Type::Mapping { .. } => Ok(()),
                    _ => Err(self.error("iteration-lock check receiver is not a list or map")),
                }
            },
        }
    }
}

impl<'a> Validator<'a> {
    fn unary_result(&self, operator: UnaryOperator, operand: TypeId) -> (result: Result<TypeId, ValidationError>)
        ensures
            self.gives(result, unary_result(self.program, operator, operand)),
    {
        let fits = match operator {
            UnaryOperator::LogicalNot => self.is_primitive(operand, PrimitiveType::Bool),
            UnaryOperator::BitwiseNot => self.is_primitive(operand, PrimitiveType::Int),
            UnaryOperator::Plus => self.is_numeric(operand),
            UnaryOperator::Minus => self.is_numeric(operand),
        };
        if fits {
            Ok(operand)
        } else {
            Err(self.error("invalid unary operand type"))
        }
    }

    fn binary_result(
        &self,
        operator: BinaryOperator,
        left: TypeId,
        right: TypeId,
        bool_type: TypeId,
        int_type: TypeId,
    ) -> (result: Result<TypeId, ValidationError>)
        ensures
            self.gives(result, binary_result(self.program, operator, left, right, bool_type, int_type)),
    {
        let found = match operator {
            BinaryOperator::BitwiseOr | BinaryOperator::BitwiseXor | BinaryOperator::BitwiseAnd
            | BinaryOperator::ShiftLeft | BinaryOperator::ShiftRight | BinaryOperator::Remainder => if left == int_type
                && right == int_type {
                Some(int_type)
            } else {
                None
            },
            BinaryOperator::Add | BinaryOperator::Subtract | BinaryOperator::Multiply
            | BinaryOperator::Divide => if left == right && self.is_numeric(left) {
                Some(left)
            } else {
                None
            },
            BinaryOperator::Equal | BinaryOperator::NotEqual => {
                let mut visiting: Vec<DefinitionId> = Vec::new();
                assert(visiting@ =~= seq![]);
                if left == right && self.supports_equality(left, &mut visiting) {
                    Some(bool_type)
                } else {
                    None
                }
            },
            BinaryOperator::Less | BinaryOperator::LessEqual | BinaryOperator::Greater
            | BinaryOperator::GreaterEqual => if left == right && self.supports_ordering(left) {
                Some(bool_type)
            } else {
                None
            },
            BinaryOperator::In => if self.membership_matches(left, right) {
                Some(bool_type)
            } else {
                None
            },
        };
        match found {
            Some(ty) => Ok(ty),
            None => Err(self.error("invalid binary operand types")),
        }
    }

    fn call_arguments(&self, function: &Function, callee: &Function, arguments: &Vec<Operand>) -> (result: Result<
        (),
        ValidationError,
    >)
        requires
            arguments@.len() == callee.parameters@.len(),
        ensures
            self.gives(result, arguments_check(self.program, self.function, function, callee, arguments@, 0)),
    {
        let mut index: usize = 0;
        while index < arguments.len()
            invariant
                index <= arguments@.len() == callee.parameters@.len(),
                arguments_check(self.program, self.function, function, callee, arguments@, 0) == arguments_check(
                    self.program,
                    self.function,
                    function,
                    callee,
                    arguments@,
                    index as int,
                ),
            decreases arguments@.len() - index,
        {
            let expected = self.local_in(callee, callee.parameters[index])?.ty;
            self.expect_operand(function, &arguments[index], expected, "call argument")?;
            index = index + 1;
        }
        Ok(())
    }

    fn printable_argument(&self, function: &Function, argument: &Operand, message: &str) -> (result: Result<
        (),
        ValidationError,
    >)
        ensures
            self.gives(
                result,
                printable_argument(self.program, self.function, function, argument, message@),
            ),
    {
        let ty = self.operand_type(function, argument)?;
        let mut visiting: Vec<DefinitionId> = Vec::new();
        let mut unions: Vec<TypeId> = Vec::new();
        assert(visiting@ =~= seq![]);
        assert(unions@ =~= seq![]);
        if self.is_printable(ty, &mut visiting, &mut unions) {
            Ok(())
        } else {
            Err(self.error(message))
        }
    }

    fn intrinsic_arguments(&self, function: &Function, intrinsic: Intrinsic, arguments: &Vec<Operand>) -> (result:
        Result<(), ValidationError>)
        ensures
            self.gives(
                result,
                intrinsic_arguments(self.program, self.function, function, intrinsic, arguments@),
            ),
    {
        match intrinsic {
            Intrinsic::Print => if arguments.len() == 1 {
                return self.printable_argument(function, &arguments[0], "print argument is not printable");
            },
            Intrinsic::Println => {
                if arguments.len() == 1 {
                    return self.printable_argument(function, &arguments[0], "println argument is not printable");
                }
                if arguments.len() == 0 {
                    return Ok(());
                }
            },
        }
        Err(self.error("intrinsic argument count does not match signature"))
    }

    fn iterable(&self, function: &Function, iterable: &Operand) -> (result: Result<(), ValidationError>)
        ensures
            self.gives(result, iterable_check(self.program, self.function, function, iterable)),
    {
        let ty = self.operand_type(function, iterable)?;
        match self.ty(ty)? {
            Type::List(_) => Ok(()),
            Type::Mapping { .. } => Ok(()),
            _ => Err(self.error("iteration operand is not a list or map")),
        }
    }

    fn validate_operation(&self, function: &Function, operation: &Operation) -> (result: Result<(), ValidationError>)
        ensures
            self.gives(result, operation_check(self.program, self.function, function, operation)),
    {
        match &operation.kind {
            OperationKind::Copy { destination, operand } => {
                let ty = self.operand_type(function, operand)?;
                self.destination(function, *destination, ty, "copy")
            },
            OperationKind::Unary { destination, operator, operand } => {
                let ty = self.operand_type(function, operand)?;
                let result = self.unary_result(*operator, ty)?;
                self.destination(function, *destination, result, "unary operation")
            },
            OperationKind::Binary { destination, operator, left, right } => {
                let left_type = self.operand_type(function, left)?;
                let right_type = self.operand_type(function, right)?;
                let bool_type = self.primitive(PrimitiveType::Bool)?;
                let int_type = self.primitive(PrimitiveType::Int)?;
                let result = self.binary_result(*operator, left_type, right_type, bool_type, int_type)?;
                self.destination(function, *destination, result, "binary operation")
            },
            OperationKind::Convert { destination, conversion, operand } => {
                let source = self.operand_type(function, operand)?;
                let result = self.conversion_result(*conversion, source)?;
                self.destination(function, *destination, result, "conversion")
            },
            OperationKind::Aggregate { destination, aggregate } => {
                let result = self.validate_aggregate(function, aggregate)?;
                self.destination(function, *destination, result, "aggregate")
            },
            OperationKind::UnionInject { destination, union_type, alternative, payload } => {
                let expected = self.alternative(*union_type, *alternative)?;
                self.expect_operand(function, payload, expected, "union payload")?;
                self.destination(function, *destination, *union_type, "union injection")
            },
            OperationKind::UnionTest { destination, union, alternative } => {
                let union_type = self.operand_type(function, union)?;
                self.alternative(union_type, *alternative)?;
                let bool_type = self.primitive(PrimitiveType::Bool)?;
                self.destination(function, *destination, bool_type, "union test")
            },
            OperationKind::UnionPayload { destination, union, alternative } => {
                let union_type = self.operand_type(function, union)?;
                let payload = self.alternative(union_type, *alternative)?;
                self.destination(function, *destination, payload, "union payload")
            },
            OperationKind::StringIndex { destination, string, index, failure } => {
                let str_type = self.primitive(PrimitiveType::Str)?;
                self.expect_operand(function, string, str_type, "string index receiver")?;
                let int_type = self.primitive(PrimitiveType::Int)?;
                self.expect_operand(function, index, int_type, "string index")?;
                self.failure_site(*failure, FailureOperation::StringIndex)?;
                let char_type = self.primitive(PrimitiveType::Char)?;
                self.destination(function, *destination, char_type, "string index")
            },
            OperationKind::Assign { destination, value } => {
                let ty = self.place_type(function, destination)?;
                self.expect_operand(function, value, ty, "assignment")
            },
            OperationKind::Call { destination, function: called, arguments } => {
                let callee = self.function(*called)?;
                if arguments.len() != callee.parameters.len() {
                    return Err(self.error("call argument count does not match signature"));
                }
                self.call_arguments(function, callee, arguments)?;
                self.destination(function, *destination, callee.result, "call")
            },
            OperationKind::Intrinsic { destination, intrinsic, arguments, failure } => {
                let unit_type = self.primitive_or_unit(Type::Unit)?;
                self.intrinsic_arguments(function, *intrinsic, arguments)?;
                self.failure_site(*failure, FailureOperation::Output)?;
                if self.program.failure_sites[failure.0].location != operation.location {
                    return Err(self.error("output failure site has the wrong source location"));
                }
                self.destination(function, *destination, unit_type, "intrinsic call")
            },
            OperationKind::Builtin { destination, method, receiver, arguments, failure } => {
                self.validate_builtin(function, *destination, *method, receiver, arguments, *failure)?;
                if let Some(site) = failure {
                    if self.program.failure_sites[site.0].location != operation.location {
                        return Err(self.error("built-in failure site has the wrong source location"));
                    }
                }
                Ok(())
            },
            OperationKind::BeginIteration { iterable } => self.iterable(function, iterable),
            OperationKind::EndIteration { iterable } => self.iterable(function, iterable),
            OperationKind::IterationValue { destination, iterable, index } => {
                let ty = self.operand_type(function, iterable)?;
                let result = match self.ty(ty)? {
                    Type::List(element) => *element,
                    Type::Mapping { key, .. } => *key,
                    _ => return Err(self.error("iteration operand is not a list or map")),
                };
                let int_type = self.primitive(PrimitiveType::Int)?;
                self.expect_operand(function, index, int_type, "iteration index")?;
                self.destination(function, *destination, result, "iteration value")
            },
            OperationKind::Check(check) => {
                self.validate_check(function, check)?;
                if self.program.failure_sites[runtime_check_failure(check).0].location != operation.location {
                    return Err(self.error("runtime check failure site has the wrong source location"));
                }
                Ok(())
            },
        }
    }

    fn switch_targets(
        &self,
        function: &Function,
        alternatives: usize,
        targets: &Vec<(AlternativeId, BlockId)>,
    ) -> (result:
        Result<(), ValidationError>)
        ensures
            self.gives(result, targets_check(function, alternatives as nat, targets@, 0)),
    {
        let mut index: usize = 0;
        while index < targets.len()
            invariant
                index <= targets@.len(),
                targets_check(function, alternatives as nat, targets@, 0) == targets_check(
                    function,
                    alternatives as nat,
                    targets@,
                    index as int,
                ),
            decreases targets@.len() - index,
        {
            let (alternative, block) = targets[index];
            if alternative.0 >= alternatives {
                return Err(self.error(joined("invalid alternative identity ", alternative.to_string().as_str())));
            }
            let mut earlier: usize = 0;
            while earlier < index
                invariant
                    earlier <= index < targets@.len(),
                    forall|i: int| 0 <= i < earlier ==> (#[trigger] targets@[i]).0 != alternative,
                    alternative == targets@[index as int].0,
                    alternative.0 < alternatives,
                    targets_check(function, alternatives as nat, targets@, 0) == targets_check(
                        function,
                        alternatives as nat,
                        targets@,
                        index as int,
                    ),
                decreases index - earlier,
            {
                if targets[earlier].0 == alternative {
                    assert(target_before(targets@, index as int, alternative));
                    return Err(self.error("switch repeats an alternative"));
                }
                earlier = earlier + 1;
            }
            assert(!target_before(targets@, index as int, alternative));
            self.block_in(function, block)?;
            index = index + 1;
        }
        Ok(())
    }

    fn validate_terminator(&self, function: &Function, terminator: &Terminator) -> (result: Result<
        (),
        ValidationError,
    >)
        ensures
            self.gives(result, terminator_check(self.program, self.function, function, terminator)),
    {
        match &terminator.kind {
            TerminatorKind::Jump(target) => self.block_in(function, *target),
            TerminatorKind::Branch { condition, then_block, else_block } => {
                let bool_type = self.primitive(PrimitiveType::Bool)?;
                self.expect_operand(function, condition, bool_type, "branch condition")?;
                self.block_in(function, *then_block)?;
                self.block_in(function, *else_block)
            },
            TerminatorKind::Switch { union, targets } => {
                let ty = self.operand_type(function, union)?;
                let alternatives = self.union_alternatives(ty)?;
                self.switch_targets(function, alternatives.len(), targets)?;
                if targets.len() != alternatives.len() {
                    return Err(self.error("switch does not cover every alternative"));
                }
                Ok(())
            },
            TerminatorKind::Return(value) => self.expect_operand(function, value, function.result, "return value"),
            TerminatorKind::Panic { message, failure } => {
                self.failure_site(*failure, FailureOperation::ExplicitPanic)?;
                if self.program.failure_sites[failure.0].location != terminator.location {
                    return Err(self.error("panic failure site has the wrong source location"));
                }
                let str_type = self.primitive(PrimitiveType::Str)?;
                self.expect_operand(function, message, str_type, "panic message")
            },
            TerminatorKind::ErrorPanic { payload, failure } => {
                self.failure_site(*failure, FailureOperation::UnhandledError)?;
                if self.program.failure_sites[failure.0].location != terminator.location {
                    return Err(self.error("Error panic failure site has the wrong source location"));
                }
                let ty = self.operand_type(function, payload)?;
                match self.ty(ty)? {
                    Type::Primitive(_) => Ok(()),
                    _ => Err(self.error("Error panic payload is not primitive")),
                }
            },
            TerminatorKind::Unreachable => Ok(()),
        }
    }
}

/// Where the failure of a check is attributed to.
pub(crate) fn runtime_check_failure(check: &RuntimeCheck) -> (result: FailureSiteId)
    ensures
        result == check_site(check),
{
    match check {
        RuntimeCheck::IntegerOverflow { failure, .. } => *failure,
        RuntimeCheck::IntegerNegation { failure, .. } => *failure,
        RuntimeCheck::Division { failure, .. } => *failure,
        RuntimeCheck::Remainder { failure, .. } => *failure,
        RuntimeCheck::ShiftRange { failure, .. } => *failure,
        RuntimeCheck::FiniteFloat { failure, .. } => *failure,
        RuntimeCheck::NumericConversion { failure, .. } => *failure,
        RuntimeCheck::IterationUnlocked { failure, .. } => *failure,
    }
}

/// What the operation `back` places before an index does.
fn kind_before(operations: &Vec<Operation>, index: usize, back: usize) -> (result: Option<&OperationKind>)
    requires
        index < operations@.len(),
    ensures
        match result {
            Some(kind) => kind_at(operations@, index - back) == Some(*kind),
            None => kind_at(operations@, index - back) is None,
        },
{
    if index >= back {
        Some(&operations[index - back].kind)
    } else {
        None
    }
}

/// What the operation behind an index does.
fn kind_behind(operations: &Vec<Operation>, index: usize) -> (result: Option<&OperationKind>)
    requires
        index < operations@.len(),
    ensures
        match result {
            Some(kind) => kind_at(operations@, index + 1) == Some(*kind),
            None => kind_at(operations@, index + 1) is None,
        },
{
    let count = operations.len();
    if index + 1 < count {
        Some(&operations[index + 1].kind)
    } else {
        None
    }
}

fn overflow_checked(
    kind: Option<&OperationKind>,
    operation: IntegerOperation,
    left: &Operand,
    right: &Operand,
) -> (result:
    bool)
    ensures
        result == is_overflow_check(owned(kind), operation, left@, right@),
{
    match kind {
        Some(OperationKind::Check(RuntimeCheck::IntegerOverflow { operation: found, left: a, right: b, .. })) => *found
            == operation && a.same(left) && b.same(right),
        _ => false,
    }
}

/// The value behind an optional reference.
spec fn owned(kind: Option<&OperationKind>) -> Option<OperationKind> {
    match kind {
        Some(kind) => Some(*kind),
        None => None,
    }
}

fn shift_checked(kind: Option<&OperationKind>, right: &Operand) -> (result: bool)
    ensures
        result == is_shift_check(owned(kind), right@),
{
    match kind {
        Some(OperationKind::Check(RuntimeCheck::ShiftRange { amount, .. })) => amount.same(right),
        _ => false,
    }
}

fn division_checked(kind: Option<&OperationKind>, left: &Operand, right: &Operand) -> (result: bool)
    ensures
        result == is_division_check(owned(kind), left@, right@),
{
    match kind {
        Some(OperationKind::Check(RuntimeCheck::Division { left: a, right: b, .. })) => a.same(left) && b.same(right),
        _ => false,
    }
}

fn remainder_checked(kind: Option<&OperationKind>, left: &Operand, right: &Operand) -> (result: bool)
    ensures
        result == is_remainder_check(owned(kind), left@, right@),
{
    match kind {
        Some(OperationKind::Check(RuntimeCheck::Remainder { left: a, right: b, .. })) => a.same(left) && b.same(right),
        _ => false,
    }
}

fn computed(kind: Option<&OperationKind>, operator: BinaryOperator, left: &Operand, right: &Operand) -> (result: bool)
    ensures
        result == is_binary(owned(kind), operator, left@, right@),
{
    match kind {
        Some(OperationKind::Binary { operator: found, left: a, right: b, .. }) => *found == operator && a.same(left)
            && b.same(right),
        _ => false,
    }
}

/// Whether an operand reads the given local.
fn reads_local(operand: &Operand, local: LocalId) -> (result: bool)
    ensures
        result == (operand@ == local_operand(local)),
{
    let expected = Operand::Copy(Place::local(local));
    assert(expected@ == local_operand(local));
    operand.same(&expected)
}

fn precheck_holds(
    operations: &Vec<Operation>,
    index: usize,
    operator: BinaryOperator,
    left: &Operand,
    right: &Operand,
    ty: TypeId,
    int_type: TypeId,
    float_type: TypeId,
) -> (result: bool)
    requires
        index < operations@.len(),
    ensures
        result == prechecked(operations@, index as int, operator, left@, right@, ty, int_type, float_type),
{
    let previous = kind_before(operations, index, 1);
    match operator {
        BinaryOperator::Add if ty == int_type => overflow_checked(previous, IntegerOperation::Add, left, right),
        BinaryOperator::Subtract if ty == int_type => overflow_checked(
            previous,
            IntegerOperation::Subtract,
            left,
            right,
        ),
        BinaryOperator::Multiply if ty == int_type => overflow_checked(
            previous,
            IntegerOperation::Multiply,
            left,
            right,
        ),
        BinaryOperator::Divide if ty == int_type || ty == float_type => division_checked(previous, left, right),
        BinaryOperator::Remainder if ty == int_type => remainder_checked(previous, left, right),
        BinaryOperator::ShiftRight if ty == int_type => shift_checked(previous, right),
        BinaryOperator::ShiftLeft if ty == int_type => overflow_checked(
            previous,
            IntegerOperation::ShiftLeft,
            left,
            right,
        ) && shift_checked(kind_before(operations, index, 2), right),
        _ => true,
    }
}

fn check_is_consumed(operations: &Vec<Operation>, index: usize, check: &RuntimeCheck) -> (result: bool)
    requires
        index < operations@.len(),
    ensures
        result == consumed(operations@, index as int, check),
{
    let next = kind_behind(operations, index);
    match check {
        RuntimeCheck::IntegerOverflow { operation, left, right, .. } => {
            let operator = match operation {
                IntegerOperation::Add => BinaryOperator::Add,
                IntegerOperation::Subtract => BinaryOperator::Subtract,
                IntegerOperation::Multiply => BinaryOperator::Multiply,
                IntegerOperation::ShiftLeft => BinaryOperator::ShiftLeft,
            };
            computed(next, operator, left, right)
        },
        RuntimeCheck::IntegerNegation { operand, .. } => match next {
            Some(OperationKind::Unary { operator, operand: value, .. }) => *operator == UnaryOperator::Minus
                && value.same(operand),
            _ => false,
        },
        RuntimeCheck::Division { left, right, .. } => computed(next, BinaryOperator::Divide, left, right),
        RuntimeCheck::Remainder { left, right, .. } => computed(next, BinaryOperator::Remainder, left, right),
        RuntimeCheck::ShiftRange { amount, .. } => match next {
            Some(OperationKind::Binary { operator, right, .. }) => (*operator == BinaryOperator::ShiftLeft || *operator
                == BinaryOperator::ShiftRight) && right.same(amount),
            Some(OperationKind::Check(RuntimeCheck::IntegerOverflow { operation, right, .. })) => *operation
                == IntegerOperation::ShiftLeft && right.same(amount),
            _ => false,
        },
        RuntimeCheck::FiniteFloat { operand, .. } => match kind_before(operations, index, 1) {
            Some(OperationKind::Binary { destination, .. }) => reads_local(operand, *destination),
            _ => false,
        },
        RuntimeCheck::NumericConversion { operand, conversion, .. } => match next {
            Some(OperationKind::Convert { operand: value, conversion: found, .. }) => value.same(operand) && *found
                == *conversion,
            _ => false,
        },
        RuntimeCheck::IterationUnlocked { receiver, failure } => match next {
            Some(OperationKind::Builtin { receiver: found, failure: Some(site), .. }) => found.same(receiver) && *site
                == *failure,
            _ => false,
        },
    }
}

impl<'a> Validator<'a> {
    /// The check of a floating-point result behind its operation.
    fn finite_check(
        &self,
        operations: &Vec<Operation>,
        index: usize,
        destination: LocalId,
        expected: FailureOperation,
    ) -> (result: Result<(), ValidationError>)
        requires
            index < operations@.len(),
        ensures
            self.gives(
                result,
                postchecked(self.program, self.function, operations@, index as int, destination, expected),
            ),
    {
        match kind_behind(operations, index) {
            Some(OperationKind::Check(RuntimeCheck::FiniteFloat { operand, failure })) => {
                if !reads_local(operand, destination) {
                    return Err(self.error("float finite-result check names the wrong destination"));
                }
                self.failure_site(*failure, expected)
            },
            _ => Err(self.error("float arithmetic lacks its immediately following finite-result check")),
        }
    }

    /// One operation beside its neighbours.
    fn adjacent(
        &self,
        function: &Function,
        operations: &Vec<Operation>,
        index: usize,
        int_type: TypeId,
        float_type: TypeId,
    ) -> (result: Result<(), ValidationError>)
        requires
            index < operations@.len(),
        ensures
            self.gives(
                result,
                adjacent_check(
                    self.program,
                    self.function,
                    function,
                    operations@,
                    index as int,
                    int_type,
                    float_type,
                ),
            ),
    {
        match &operations[index].kind {
            OperationKind::Unary { operator, operand, .. } => {
                if *operator == UnaryOperator::Minus && self.operand_type(function, operand)? == int_type {
                    let checked = match kind_before(operations, index, 1) {
                        Some(OperationKind::Check(RuntimeCheck::IntegerNegation { operand: checked, .. })) => checked.same(
                            operand,
                        ),
                        _ => false,
                    };
                    if !checked {
                        return Err(self.error("integer negation lacks its immediately preceding check"));
                    }
                }
                Ok(())
            },
            OperationKind::Convert { conversion, operand, .. } => {
                if *conversion == NumericConversion::FloatToInt {
                    let checked = match kind_before(operations, index, 1) {
                        Some(
                            OperationKind::Check(
                                RuntimeCheck::NumericConversion { operand: checked, conversion: found, .. },
                            ),
                        ) => *found == NumericConversion::FloatToInt && checked.same(operand),
                        _ => false,
                    };
                    if !checked {
                        return Err(self.error("float-to-int conversion lacks its immediately preceding check"));
                    }
                }
                Ok(())
            },
            OperationKind::Binary { destination, operator, left, right } => {
                let ty = self.operand_type(function, left)?;
                if !precheck_holds(operations, index, *operator, left, right, ty, int_type, float_type) {
                    return Err(self.error("numeric operation has an invalid or missing pre-check sequence"));
                }
                if ty == float_type {
                    match operator {
                        BinaryOperator::Add => self.finite_check(
                            operations,
                            index,
                            *destination,
                            FailureOperation::FloatAdd,
                        ),
                        BinaryOperator::Subtract => self.finite_check(
                            operations,
                            index,
                            *destination,
                            FailureOperation::FloatSubtract,
                        ),
                        BinaryOperator::Multiply => self.finite_check(
                            operations,
                            index,
                            *destination,
                            FailureOperation::FloatMultiply,
                        ),
                        BinaryOperator::Divide => self.finite_check(
                            operations,
                            index,
                            *destination,
                            FailureOperation::FloatDivision,
                        ),
                        _ => Ok(()),
                    }
                } else {
                    Ok(())
                }
            },
            OperationKind::Builtin { method, receiver, failure, .. } => {
                let mutates = match method {
                    BuiltinMethod::ListAppend => true,
                    BuiltinMethod::ListRemoveIndex => true,
                    BuiltinMethod::MapRemoveKey => true,
                    _ => false,
                };
                if let Some(failure) = failure {
                    if mutates {
                        let checked = match kind_before(operations, index, 1) {
                            Some(
                                OperationKind::Check(
                                    RuntimeCheck::IterationUnlocked { receiver: checked, failure: site },
                                ),
                            ) => checked.same(receiver) && *site == *failure,
                            _ => false,
                        };
                        if !checked {
                            return Err(
                                self.error(
                                    "structural mutation lacks its immediately preceding iteration-lock check",
                                ),
                            );
                        }
                    }
                }
                Ok(())
            },
            OperationKind::Check(check) => {
                if !check_is_consumed(operations, index, check) {
                    return Err(self.error("runtime check is not adjacent to its checked operation"));
                }
                Ok(())
            },
            _ => Ok(()),
        }
    }

    fn validate_check_sequence(&self, function: &Function, block: &BasicBlock) -> (result: Result<(), ValidationError>)
        ensures
            self.gives(result, sequence_check(self.program, self.function, function, block.operations@)),
    {
        let int_type = self.primitive(PrimitiveType::Int)?;
        let float_type = self.primitive(PrimitiveType::Float)?;
        let mut index: usize = 0;
        while index < block.operations.len()
            invariant
                index <= block.operations@.len(),
                sequence_check(self.program, self.function, function, block.operations@) == neighbours_check(
                    self.program,
                    self.function,
                    function,
                    block.operations@,
                    index as int,
                    int_type,
                    float_type,
                ),
            decreases block.operations@.len() - index,
        {
            self.adjacent(function, &block.operations, index, int_type, float_type)?;
            index = index + 1;
        }
        Ok(())
    }
}

/// The identity, then what is wrong with what it names.
fn about(prefix: &str, index: usize, message: &str) -> (result: String)
    ensures
        result@ == prefix@ + decimal(index as nat) + message@,
{
    let mut text = prefix.to_owned();
    push_decimal(&mut text, index);
    text.append(message);
    text
}

impl<'a> Validator<'a> {
    fn validate_alternatives(&self, owner: String, alternatives: &Vec<UnionAlternative>) -> (result: Result<
        (),
        ValidationError,
    >)
        ensures
            self.gives(result, alternatives_check(self.program, owner@, alternatives@)),
    {
        if alternatives.len() < 2 {
            return Err(self.error(joined(owner.as_str(), " union has fewer than two alternatives")));
        }
        let mut tagged: Option<bool> = None;
        let mut index: usize = 0;
        while index < alternatives.len()
            invariant
                index <= alternatives@.len(),
                alternatives@.len() >= 2,
                (tagged == Some(true)) == mixed_before(alternatives@, index as int, false),
                (tagged == Some(false)) == mixed_before(alternatives@, index as int, true),
                alternatives_check(self.program, owner@, alternatives@) == each_alternative_check(
                    self.program,
                    owner@,
                    alternatives@,
                    index as int,
                ),
            decreases alternatives@.len() - index,
        {
            let alternative = &alternatives[index];
            let payload = self.ty(alternative.payload)?;
            let total = alternatives.len();
            match &alternative.constructor {
                AlternativeConstructor::Untagged => {
                    if tagged == Some(true) {
                        return Err(self.error(joined(owner.as_str(), " mixes tagged and untagged alternatives")));
                    }
                    tagged = Some(false);
                    if untagged_earlier(alternatives, index, alternative.payload) {
                        return Err(self.error(joined(owner.as_str(), " repeats an untagged payload type")));
                    }
                },
                AlternativeConstructor::Tagged(tag) => {
                    if tagged == Some(false) {
                        return Err(self.error(joined(owner.as_str(), " mixes tagged and untagged alternatives")));
                    }
                    tagged = Some(true);
                    if is_empty(tag.as_str()) || same_text(tag.as_str(), "Error") || tag_earlier(
                        alternatives,
                        index,
                        tag.as_str(),
                    ) {
                        return Err(self.error(joined(owner.as_str(), " has an empty, reserved, or duplicate tag")));
                    }
                },
                AlternativeConstructor::Error => {
                    if index + 1 != total {
                        return Err(self.error(joined(owner.as_str(), " Error alternative is not last")));
                    }
                    let primitive = match payload {
                        Type::Primitive(_) => true,
                        _ => false,
                    };
                    if !primitive {
                        return Err(self.error(joined(owner.as_str(), " Error payload is not primitive")));
                    }
                },
            }
            proof {
                lemma_mixed_step(alternatives@, index as int, true);
                lemma_mixed_step(alternatives@, index as int, false);
            }
            index = index + 1;
        }
        Ok(())
    }

    fn validate_type(&self, id: TypeId, ty: &Type) -> (result: Result<(), ValidationError>)
        requires
            id.0 < self.program.types@.len(),
            *ty == self.program.types@[id.0 as int],
        ensures
            self.gives(result, type_check(self.program, id)),
    {
        match ty {
            Type::Unit => Ok(()),
            Type::Primitive(_) => Ok(()),
            Type::List(element) => {
                self.ty(*element)?;
                Ok(())
            },
            Type::Mapping { key, value } => {
                self.ty(*key)?;
                self.ty(*value)?;
                Ok(())
            },
            Type::Nominal(definition) => {
                self.definition(*definition)?;
                Ok(())
            },
            Type::Union(alternatives) => self.validate_alternatives(id.to_string(), alternatives),
        }
    }

    fn storage_is_legal(&self, ty: TypeId, storage: MemberStorage) -> (result: bool)
        ensures
            result == storage_is_legal(self.program, ty, storage),
    {
        if ty.0 >= self.program.types.len() {
            return false;
        }
        if storage == MemberStorage::Inline {
            return true;
        }
        match &self.program.types[ty.0] {
            Type::Nominal(definition) => {
                if definition.0 >= self.program.definitions.len() {
                    return false;
                }
                match &self.program.definitions[definition.0].layout {
                    DefinitionLayout::Struct(_) => true,
                    _ => false,
                }
            },
            _ => false,
        }
    }

    fn layout_fields(&self, id: DefinitionId, fields: &Vec<StructField>) -> (result: Result<(), ValidationError>)
        ensures
            self.gives(result, layout_fields_check(self.program, id, fields@, 0)),
    {
        let mut index: usize = 0;
        while index < fields.len()
            invariant
                index <= fields@.len(),
                layout_fields_check(self.program, id, fields@, 0) == layout_fields_check(
                    self.program,
                    id,
                    fields@,
                    index as int,
                ),
            decreases fields@.len() - index,
        {
            let field = &fields[index];
            if is_empty(field.name.as_str()) || field_name_earlier(fields, index, field.name.as_str()) {
                let shown = about(
                    joined(id.to_string().as_str(), " field").as_str(),
                    index,
                    " has an empty or duplicate name",
                );
                return Err(self.error(shown));
            }
            self.ty(field.ty)?;
            if !self.storage_is_legal(field.ty, field.storage) {
                let shown = about(
                    joined(id.to_string().as_str(), " field").as_str(),
                    index,
                    " has invalid storage for ",
                );
                return Err(self.error(joined(shown.as_str(), field.ty.to_string().as_str())));
            }
            index = index + 1;
        }
        Ok(())
    }

    fn layout_types(&self, fields: &Vec<TypeId>) -> (result: Result<(), ValidationError>)
        ensures
            self.gives(result, layout_types_check(self.program, fields@, 0)),
    {
        let mut index: usize = 0;
        while index < fields.len()
            invariant
                index <= fields@.len(),
                layout_types_check(self.program, fields@, 0) == layout_types_check(
                    self.program,
                    fields@,
                    index as int,
                ),
            decreases fields@.len() - index,
        {
            self.ty(fields[index])?;
            index = index + 1;
        }
        Ok(())
    }

    fn validate_definition(&self, id: DefinitionId, definition: &NominalDefinition) -> (result: Result<
        (),
        ValidationError,
    >)
        requires
            id.0 < self.program.definitions@.len(),
            *definition == self.program.definitions@[id.0 as int],
        ensures
            self.gives(result, definition_check(self.program, id)),
    {
        if is_empty(definition.name.as_str()) {
            return Err(self.error(joined(id.to_string().as_str(), " has an empty name")));
        }
        match &definition.layout {
            DefinitionLayout::Struct(fields) => {
                if fields.len() == 0 {
                    return Err(self.error(joined(id.to_string().as_str(), " struct layout is empty")));
                }
                self.layout_fields(id, fields)
            },
            DefinitionLayout::Tuple(fields) => {
                if fields.len() == 0 {
                    return Err(self.error(joined(id.to_string().as_str(), " tuple layout is empty")));
                }
                self.layout_types(fields)
            },
            DefinitionLayout::Union(alternatives) => self.validate_alternatives(id.to_string(), alternatives),
        }
    }

    fn parameters(&self, function: &Function) -> (result: Result<(), ValidationError>)
        ensures
            self.gives(result, parameters_check(function, 0)),
    {
        let mut index: usize = 0;
        while index < function.parameters.len()
            invariant
                index <= function.parameters@.len(),
                parameters_check(function, 0) == parameters_check(function, index as int),
            decreases function.parameters@.len() - index,
        {
            let parameter = function.parameters[index];
            let local = self.local_in(function, parameter)?;
            if local.origin != LocalOrigin::Parameter || local_earlier(&function.parameters, index, parameter) {
                return Err(self.error("parameter list contains a duplicate or non-parameter local"));
            }
            index = index + 1;
        }
        Ok(())
    }

    fn locals(&self, function: &Function) -> (result: Result<(), ValidationError>)
        ensures
            self.gives(result, locals_check(self.program, function, 0)),
    {
        let mut index: usize = 0;
        while index < function.locals.len()
            invariant
                index <= function.locals@.len(),
                locals_check(self.program, function, 0) == locals_check(self.program, function, index as int),
            decreases function.locals@.len() - index,
        {
            let local = &function.locals[index];
            self.ty(local.ty)?;
            if local.origin == LocalOrigin::Parameter {
                let known = local_earlier(&function.parameters, function.parameters.len(), LocalId(index));
                assert(function.parameters@.take(function.parameters@.len() as int) =~= function.parameters@);
                if !known {
                    return Err(self.error(about("_", index, " is a parameter local missing from the signature")));
                }
            }
            index = index + 1;
        }
        Ok(())
    }

    fn header(&self, function: &Function) -> (result: Result<(), ValidationError>)
        ensures
            self.gives(result, header_check(self.program, function)),
    {
        if is_empty(function.name.as_str()) {
            return Err(self.error("function name is empty"));
        }
        self.ty(function.result)?;
        match function.entry {
            None => Err(self.error("entry block is not set")),
            Some(entry) => {
                self.block_in(function, entry)?;
                self.parameters(function)?;
                self.locals(function)
            },
        }
    }
}

fn is_empty(text: &str) -> (result: bool)
    ensures
        result == (text@.len() == 0),
{
    let empty = same_text(text, "");
    proof {
        reveal_strlit("");
        assert(""@ =~= seq![]);
        if text@.len() == 0 {
            assert(text@ =~= ""@);
        }
    }
    empty
}

proof fn lemma_mixed_step(alternatives: Seq<UnionAlternative>, count: int, tagged: bool)
    requires
        0 <= count < alternatives.len(),
    ensures
        mixed_before(alternatives, count + 1, tagged) == (mixed_before(alternatives, count, tagged) || match alternatives[count].constructor {
            AlternativeConstructor::Untagged => tagged,
            AlternativeConstructor::Tagged(_) => !tagged,
            AlternativeConstructor::Error => false,
        }),
{
    if mixed_before(alternatives, count, tagged) {
        let i = choose|i: int|
            0 <= i < count && match (#[trigger] alternatives[i]).constructor {
                AlternativeConstructor::Untagged => tagged,
                AlternativeConstructor::Tagged(_) => !tagged,
                AlternativeConstructor::Error => false,
            };
        assert(0 <= i < count + 1 && alternatives[i] == alternatives[i]);
    }
}

fn untagged_earlier(alternatives: &Vec<UnionAlternative>, count: usize, payload: TypeId) -> (result: bool)
    requires
        count <= alternatives@.len(),
    ensures
        result == payload_before(alternatives@, count as int, payload),
{
    let mut index: usize = 0;
    while index < count
        invariant
            index <= count <= alternatives@.len(),
            !payload_before(alternatives@, index as int, payload),
        decreases count - index,
    {
        let untagged = match &alternatives[index].constructor {
            AlternativeConstructor::Untagged => true,
            _ => false,
        };
        if untagged && alternatives[index].payload == payload {
            return true;
        }
        index = index + 1;
    }
    false
}

fn tag_earlier(alternatives: &Vec<UnionAlternative>, count: usize, tag: &str) -> (result: bool)
    requires
        count <= alternatives@.len(),
    ensures
        result == alternative_before(alternatives@, count as int, ConstructorView::Tagged(tag@)),
{
    let mut index: usize = 0;
    while index < count
        invariant
            index <= count <= alternatives@.len(),
            !alternative_before(alternatives@, index as int, ConstructorView::Tagged(tag@)),
        decreases count - index,
    {
        if let AlternativeConstructor::Tagged(found) = &alternatives[index].constructor {
            if same_text(found.as_str(), tag) {
                assert(alternatives@[index as int].constructor@ == ConstructorView::Tagged(tag@));
                return true;
            }
        }
        index = index + 1;
    }
    false
}

fn field_name_earlier(fields: &Vec<StructField>, count: usize, name: &str) -> (result: bool)
    requires
        count <= fields@.len(),
    ensures
        result == name_before(fields@, count as int, name@),
{
    let mut index: usize = 0;
    while index < count
        invariant
            index <= count <= fields@.len(),
            !name_before(fields@, index as int, name@),
        decreases count - index,
    {
        if same_text(fields[index].name.as_str(), name) {
            return true;
        }
        index = index + 1;
    }
    false
}

fn local_earlier(locals: &Vec<LocalId>, count: usize, local: LocalId) -> (result: bool)
    requires
        count <= locals@.len(),
    ensures
        result == locals@.take(count as int).contains(local),
{
    let mut index: usize = 0;
    while index < count
        invariant
            index <= count <= locals@.len(),
            forall|i: int| 0 <= i < index ==> locals@[i] != local,
        decreases count - index,
    {
        if locals[index] == local {
            assert(locals@.take(count as int)[index as int] == local);
            return true;
        }
        index = index + 1;
    }
    false
}

/// A result that agrees with what a check says.
pub open spec fn agrees(result: Result<(), ValidationError>, expected: Result<(), ErrorView>) -> bool {
    match expected {
        Ok(_) => result is Ok,
        Err(error) => result is Err && result->Err_0@ == error,
    }
}

impl<'a> Validator<'a> {
    fn operations(&mut self, id: FunctionId, function: &Function, block: usize) -> (result: Result<(), ValidationError>)
        requires
            old(self).function == Some(id),
            old(self).block == Some(BlockId(block)),
            block < function.blocks@.len(),
            old(self).site == (if block > 0 {
                Some(OperationSite::Terminator)
            } else {
                None
            }),
        ensures
            agrees(result, operations_check(old(self).program, id, function, block as int, 0)),
            final(self).program == old(self).program,
            final(self).function == old(self).function,
            final(self).block == old(self).block,
            result is Ok ==> final(self).site == last_site(function, block as int),
    {
        let mut index: usize = 0;
        while index < function.blocks[block].operations.len()
            invariant
                block < function.blocks@.len(),
                index <= function.blocks@[block as int].operations@.len(),
                self.program == old(self).program,
                self.function == Some(id),
                self.function == old(self).function,
                self.block == Some(BlockId(block)),
                self.block == old(self).block,
                self.site == (if index > 0 {
                    Some(OperationSite::Operation((index - 1) as usize))
                } else if block > 0 {
                    Some(OperationSite::Terminator)
                } else {
                    None
                }),
                operations_check(old(self).program, id, function, block as int, 0) == operations_check(
                    old(self).program,
                    id,
                    function,
                    block as int,
                    index as int,
                ),
            decreases function.blocks@[block as int].operations@.len() - index,
        {
            let operation = &function.blocks[block].operations[index];
            self.site = Some(OperationSite::Operation(index));
            self.location(operation.location)?;
            self.validate_operation(function, operation)?;
            index = index + 1;
        }
        Ok(())
    }

    fn ending(&self, function: &Function, block: &BasicBlock) -> (result: Result<(), ValidationError>)
        requires
            self.function is Some,
        ensures
            self.gives(result, ending_check(self.program, self.function->Some_0, function, block)),
    {
        match &block.terminator {
            None => Err(self.error("block is not terminated")),
            Some(terminator) => {
                self.location(terminator.location)?;
                self.validate_terminator(function, terminator)
            },
        }
    }

    fn validate_function(&mut self, id: FunctionId, function: &Function) -> (result: Result<(), ValidationError>)
        requires
            id.0 < old(self).program.functions@.len(),
            *function == old(self).program.functions@[id.0 as int],
            old(self).block is None,
            old(self).site is None,
        ensures
            agrees(result, function_check(old(self).program, id)),
            final(self).program == old(self).program,
            result is Ok ==> final(self).block is None && final(self).site is None,
    {
        self.function = Some(id);
        self.header(function)?;
        let mut index: usize = 0;
        while index < function.blocks.len()
            invariant
                index <= function.blocks@.len(),
                self.program == old(self).program,
                self.function == Some(id),
                self.site == (if index > 0 {
                    Some(OperationSite::Terminator)
                } else {
                    None
                }),
                function_check(old(self).program, id) == blocks_check(old(self).program, id, function, index as int),
            decreases function.blocks@.len() - index,
        {
            self.block = Some(BlockId(index));
            self.operations(id, function, index)?;
            self.validate_check_sequence(function, &function.blocks[index])?;
            self.site = Some(OperationSite::Terminator);
            self.ending(function, &function.blocks[index])?;
            index = index + 1;
        }
        self.block = None;
        self.site = None;
        Ok(())
    }

    fn functions(&mut self) -> (result: Result<(), ValidationError>)
        requires
            old(self).block is None,
            old(self).site is None,
        ensures
            agrees(result, functions_check(old(self).program, 0)),
            final(self).program == old(self).program,
    {
        let program = self.program;
        let mut index: usize = 0;
        while index < program.functions.len()
            invariant
                index <= program.functions@.len(),
                self.program == program,
                program == old(self).program,
                self.block is None,
                self.site is None,
                functions_check(program, 0) == functions_check(program, index as int),
            decreases program.functions@.len() - index,
        {
            let function = &program.functions[index];
            self.function = Some(FunctionId(index));
            if function_name_earlier(&program.functions, index, function.name.as_str()) {
                return Err(self.error(about("fn", index, " repeats a function name")));
            }
            self.validate_function(FunctionId(index), function)?;
            index = index + 1;
        }
        Ok(())
    }

    fn locations(&self) -> (result: Result<(), ValidationError>)
        ensures
            self.gives(result, locations_check(self.program, 0)),
    {
        let program = self.program;
        let mut index: usize = 0;
        while index < program.locations.len()
            invariant
                index <= program.locations@.len(),
                self.program == program,
                locations_check(program, 0) == locations_check(program, index as int),
            decreases program.locations@.len() - index,
        {
            let span = program.locations[index];
            if span.start > span.end || span.end > program.source.byte_len {
                let mut text = about("loc", index, " has invalid byte span ");
                push_decimal(&mut text, span.start);
                text.append("..");
                push_decimal(&mut text, span.end);
                return Err(self.error(text));
            }
            let mut earlier: usize = 0;
            while earlier < index
                invariant
                    earlier <= index < program.locations@.len(),
                    self.program == program,
                    span == program.locations@[index as int],
                    span.start <= span.end <= program.source.byte_len,
                    forall|i: int| 0 <= i < earlier ==> program.locations@[i] != span,
                    locations_check(program, 0) == locations_check(program, index as int),
                decreases index - earlier,
            {
                if program.locations[earlier] == span {
                    assert(program.locations@.take(index as int)[earlier as int] == span);
                    return Err(self.error(about("loc", index, " duplicates an earlier source location")));
                }
                earlier = earlier + 1;
            }
            index = index + 1;
        }
        Ok(())
    }

    fn failures(&self) -> (result: Result<(), ValidationError>)
        ensures
            self.gives(result, failures_check(self.program, 0)),
    {
        let program = self.program;
        let mut index: usize = 0;
        while index < program.failure_sites.len()
            invariant
                index <= program.failure_sites@.len(),
                self.program == program,
                failures_check(program, 0) == failures_check(program, index as int),
            decreases program.failure_sites@.len() - index,
        {
            let failure = program.failure_sites[index];
            if failure.location.0 >= program.locations.len() {
                let shown = about("fail", index, " has invalid location ");
                return Err(self.error(joined(shown.as_str(), failure.location.to_string().as_str())));
            }
            if failure.function.0 >= program.functions.len() {
                let shown = about("fail", index, " has invalid function ");
                return Err(self.error(joined(shown.as_str(), failure.function.to_string().as_str())));
            }
            if failure.line == 0 || failure.column == 0 {
                return Err(self.error(about("fail", index, " has an invalid line or column")));
            }
            if failure_earlier(&program.failure_sites, index, failure) {
                return Err(self.error(about("fail", index, " duplicates an earlier failure site")));
            }
            index = index + 1;
        }
        Ok(())
    }

    fn types(&self) -> (result: Result<(), ValidationError>)
        ensures
            self.gives(result, types_check(self.program, 0)),
    {
        let program = self.program;
        let mut index: usize = 0;
        while index < program.types.len()
            invariant
                index <= program.types@.len(),
                self.program == program,
                types_check(program, 0) == types_check(program, index as int),
            decreases program.types@.len() - index,
        {
            let ty = &program.types[index];
            self.validate_type(TypeId(index), ty)?;
            if type_earlier(&program.types, index, ty) {
                return Err(self.error(about("ty", index, " duplicates an earlier canonical type")));
            }
            index = index + 1;
        }
        Ok(())
    }

    fn definitions(&self) -> (result: Result<(), ValidationError>)
        ensures
            self.gives(result, definitions_check(self.program, 0)),
    {
        let program = self.program;
        let mut index: usize = 0;
        while index < program.definitions.len()
            invariant
                index <= program.definitions@.len(),
                self.program == program,
                definitions_check(program, 0) == definitions_check(program, index as int),
            decreases program.definitions@.len() - index,
        {
            let definition = &program.definitions[index];
            if definition_name_earlier(&program.definitions, index, definition.name.as_str()) {
                return Err(self.error(about("def", index, " repeats a nominal definition name")));
            }
            self.validate_definition(DefinitionId(index), definition)?;
            index = index + 1;
        }
        Ok(())
    }

    fn nominals(&self) -> (result: Result<(), ValidationError>)
        ensures
            self.gives(result, nominals_check(self.program, 0)),
    {
        let mut index: usize = 0;
        while index < self.program.definitions.len()
            invariant
                index <= self.program.definitions@.len(),
                nominals_check(self.program, 0) == nominals_check(self.program, index as int),
            decreases self.program.definitions@.len() - index,
        {
            self.nominal_type(DefinitionId(index))?;
            index = index + 1;
        }
        Ok(())
    }

    fn validate(&mut self) -> (result: Result<(), ValidationError>)
        requires
            old(self).function is None,
            old(self).block is None,
            old(self).site is None,
        ensures
            agrees(result, program_check(old(self).program)),
    {
        if is_empty(self.program.source.filename.as_str()) {
            return Err(self.error("source filename is empty"));
        }
        self.locations()?;
        self.failures()?;
        self.types()?;
        self.definitions()?;
        self.nominals()?;
        match self.program.entry {
            None => return Err(self.error("entry function is not set")),
            Some(entry) => {
                self.function(entry)?;
            },
        }
        self.functions()
    }
}

fn function_name_earlier(functions: &Vec<Function>, count: usize, name: &str) -> (result: bool)
    requires
        count <= functions@.len(),
    ensures
        result == function_name_before(functions@, count as int, name@),
{
    let mut index: usize = 0;
    while index < count
        invariant
            index <= count <= functions@.len(),
            !function_name_before(functions@, index as int, name@),
        decreases count - index,
    {
        if same_text(functions[index].name.as_str(), name) {
            return true;
        }
        index = index + 1;
    }
    false
}

fn definition_name_earlier(definitions: &Vec<NominalDefinition>, count: usize, name: &str) -> (result: bool)
    requires
        count <= definitions@.len(),
    ensures
        result == definition_name_before(definitions@, count as int, name@),
{
    let mut index: usize = 0;
    while index < count
        invariant
            index <= count <= definitions@.len(),
            !definition_name_before(definitions@, index as int, name@),
        decreases count - index,
    {
        if same_text(definitions[index].name.as_str(), name) {
            return true;
        }
        index = index + 1;
    }
    false
}

fn failure_earlier(sites: &Vec<FailureSite>, count: usize, failure: FailureSite) -> (result: bool)
    requires
        count <= sites@.len(),
    ensures
        result == failure_keys(sites@.take(count as int)).contains(failure_key(failure)),
{
    let mut index: usize = 0;
    while index < count
        invariant
            index <= count <= sites@.len(),
            forall|i: int| 0 <= i < index ==> failure_key(#[trigger] sites@[i]) != failure_key(failure),
        decreases count - index,
    {
        let site = sites[index];
        if site.location == failure.location && site.function == failure.function && site.operation
            == failure.operation {
            assert(failure_keys(sites@.take(count as int))[index as int] == failure_key(failure));
            return true;
        }
        index = index + 1;
    }
    assert forall|i: int| 0 <= i < count implies #[trigger] failure_keys(sites@.take(count as int))[i] != failure_key(
        failure,
    ) by {
        assert(failure_key(sites@[i]) != failure_key(failure));
    }
    false
}

fn type_earlier(types: &Vec<Type>, count: usize, ty: &Type) -> (result: bool)
    requires
        count <= types@.len(),
    ensures
        result == type_views(types@.take(count as int)).contains(ty@),
{
    let mut index: usize = 0;
    while index < count
        invariant
            index <= count <= types@.len(),
            forall|i: int| 0 <= i < index ==> (#[trigger] types@[i])@ != ty@,
        decreases count - index,
    {
        if types[index].same(ty) {
            assert(type_views(types@.take(count as int))[index as int] == ty@);
            return true;
        }
        index = index + 1;
    }
    assert forall|i: int| 0 <= i < count implies #[trigger] type_views(types@.take(count as int))[i] != ty@ by {
        assert(types@[i]@ != ty@);
    }
    false
}

impl Program {
    /// Reports the first thing that is wrong with the program.
    pub fn validate(&self) -> (result: Result<(), ValidationError>)
        ensures
            agrees(result, program_check(self)),
    {
        let mut validator = Validator::new(self);
        validator.validate()
    }
}

/// The type of an operand that is known to be well-formed.
pub(crate) fn operand_type_of(program: &Program, id: FunctionId, operand: &Operand) -> (result: TypeId)
    requires
        id.0 < program.functions@.len(),
        operand_type(program, Some(id), &program.functions@[id.0 as int], operand) is Ok,
    ensures
        operand_type(program, Some(id), &program.functions@[id.0 as int], operand) == Ok::<TypeId, Seq<char>>(result),
{
    let mut validator = Validator::new(program);
    validator.function = Some(id);
    match validator.operand_type(&program.functions[id.0], operand) {
        Ok(ty) => ty,
        Err(_) => TypeId(0),
    }
}

} // verus!
