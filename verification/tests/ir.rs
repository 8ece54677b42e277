use sao2::ir::rendering::escape_bytes;
use sao2::ir::validation::OperationSite;
use sao2::ir::{
    Aggregate, AlternativeId, BinaryOperator, BlockId, BuiltinMethod, ByteSpan, Constant, ConstantValue, DefinitionId,
    FailureOperation, FailureSite, FieldId, Function, FunctionId, IntegerOperation, Intrinsic, LocalId, LocalOrigin,
    LocationId, MemberStorage, NominalDefinition, NumericConversion, Operand, OperationKind, Place, PrimitiveType,
    Program, Projection, RuntimeCheck, Terminator, TerminatorKind, Type, TypeId, UnaryOperator, UnionAlternative,
};

struct CoreTypes {
    unit: TypeId,
    int: TypeId,
    float: TypeId,
    string: TypeId,
    boolean: TypeId,
    character: TypeId,
}

fn program() -> (Program, CoreTypes, LocationId) {
    let mut program = Program::new("test.sao2".to_owned(), 100);
    let types = CoreTypes {
        unit: program.intern_type(Type::Unit),
        int: program.intern_type(Type::Primitive(PrimitiveType::Int)),
        float: program.intern_type(Type::Primitive(PrimitiveType::Float)),
        string: program.intern_type(Type::Primitive(PrimitiveType::Str)),
        boolean: program.intern_type(Type::Primitive(PrimitiveType::Bool)),
        character: program.intern_type(Type::Primitive(PrimitiveType::Char)),
    };
    let location = program.intern_location(ByteSpan::new(4, 9));
    (program, types, location)
}

fn constant(ty: TypeId, value: ConstantValue) -> Operand {
    Operand::Constant(Constant { ty, value })
}

fn integer(types: &CoreTypes, value: i64) -> Operand {
    constant(types.int, ConstantValue::Integer(value))
}

fn add_returning_function(program: &mut Program, name: &str, result: TypeId, value: Operand, location: LocationId) -> FunctionId {
    let mut function = Function::new(name.to_owned(), result);
    let block = function.add_block();
    function.entry = Some(block);
    function.blocks[block.index()].terminate(TerminatorKind::Return(value), location);
    program.add_function(function)
}

#[test]
fn identities_are_allocated_in_insertion_order_and_rendering_is_canonical() {
    let (mut program, types, location) = program();
    assert_eq!(types.unit.index(), 0);
    assert_eq!(types.character.index(), 5);
    assert_eq!(program.intern_type(Type::Unit), types.unit);

    let mut function = Function::new("main\"line", types.float);
    let result = function.add_local(types.float, Some("temporary\nname".to_owned()), LocalOrigin::Temporary);
    let block = function.add_block();
    function.entry = Some(block);
    function.blocks[block.index()].push(
        OperationKind::Copy {
            destination: result,
            operand: constant(types.float, ConstantValue::Float(1.5f64.to_bits())),
        },
        location,
    );
    function.blocks[block.index()].terminate(TerminatorKind::Return(Operand::Copy(Place::local(result))), location);
    let main = program.add_function(function);
    program.entry = Some(main);

    assert!(program.validate().is_ok());
    let expected = "source \"test.sao2\" bytes 100\n  loc0 = 4..9\ntype ty0 = unit\ntype ty1 = int\ntype ty2 = float\ntype ty3 = str\ntype ty4 = bool\ntype ty5 = char\nentry fn0\nfn fn0 \"main\\\"line\"() -> ty2 entry bb0 {\n  _0: ty2 temporary \"temporary\\nname\"\n  bb0:\n    _0 = copy const ty2 0x3ff8000000000000 @ loc0\n    return copy _0 @ loc0\n}\n";
    assert_eq!(program.render(), expected);
    assert_eq!(program.render(), program.clone().render());
}

#[test]
fn validates_the_complete_operation_and_control_flow_vocabulary() {
    let (mut program, types, location) = program();

    let mut point = NominalDefinition::structure("Point");
    let point_x = point.add_struct_field("x", types.int, MemberStorage::Inline);
    let point_name = point.add_struct_field("name", types.string, MemberStorage::Inline);
    let point_definition = program.add_definition(point);
    let point_type = program.intern_type(Type::Nominal(point_definition));

    let mut pair = NominalDefinition::tuple("Pair");
    let pair_first = pair.add_tuple_field(types.int);
    pair.add_tuple_field(types.float);
    let pair_definition = program.add_definition(pair);
    let pair_type = program.intern_type(Type::Nominal(pair_definition));

    let mut choice = NominalDefinition::union("Choice");
    let choice_a = choice.add_alternative(UnionAlternative::tagged("A", types.int));
    let choice_b = choice.add_alternative(UnionAlternative::tagged("B", types.float));
    let choice_definition = program.add_definition(choice);
    let choice_type = program.intern_type(Type::Nominal(choice_definition));
    let list_type = program.intern_type(Type::List(types.int));
    let map_type = program.intern_type(Type::Mapping { key: types.int, value: types.string });
    program.intern_type(Type::Union(vec![
        UnionAlternative::untagged(types.int),
        UnionAlternative::error(types.string),
    ]));

    let mut identity = Function::new("identity", types.int);
    let identity_parameter = identity.add_local(types.int, Some("value".to_owned()), LocalOrigin::Parameter);
    let identity_block = identity.add_block();
    identity.entry = Some(identity_block);
    identity.blocks[identity_block.index()].terminate(TerminatorKind::Return(Operand::Copy(Place::local(identity_parameter))), location);
    let identity_id = program.add_function(identity);
    let main_identity = FunctionId::from_index(1);
    let site = |program: &mut Program, operation| program.intern_failure_site(FailureSite { location, function: main_identity, operation, line: 1, column: 5 });
    let list_index_failure = site(&mut program, FailureOperation::ListIndex);
    let map_index_failure = site(&mut program, FailureOperation::MapIndex);
    let string_index_failure = site(&mut program, FailureOperation::StringIndex);
    let output_failure = site(&mut program, FailureOperation::Output);
    let append_failure = site(&mut program, FailureOperation::ListAppend);
    let remove_failure = site(&mut program, FailureOperation::MapRemoveKey);
    let panic_failure = site(&mut program, FailureOperation::ExplicitPanic);
    let error_failure = site(&mut program, FailureOperation::UnhandledError);

    let mut main = Function::new("main", types.int);
    let input = main.add_local(types.int, Some("input".to_owned()), LocalOrigin::Parameter);
    let index = main.add_local(types.int, Some("index".to_owned()), LocalOrigin::Binding);
    let int_temp = main.add_local(types.int, None, LocalOrigin::Temporary);
    let float_temp = main.add_local(types.float, None, LocalOrigin::Temporary);
    let bool_temp = main.add_local(types.boolean, None, LocalOrigin::Temporary);
    let unit_temp = main.add_local(types.unit, None, LocalOrigin::Temporary);
    let point_local = main.add_local(point_type, Some("point".to_owned()), LocalOrigin::Binding);
    let pair_local = main.add_local(pair_type, None, LocalOrigin::Temporary);
    let choice_local = main.add_local(choice_type, None, LocalOrigin::Temporary);
    let list_local = main.add_local(list_type, Some("items".to_owned()), LocalOrigin::Binding);
    let map_local = main.add_local(map_type, Some("lookup".to_owned()), LocalOrigin::Binding);
    let string_local = main.add_local(types.string, None, LocalOrigin::Temporary);
    let character_temp = main.add_local(types.character, None, LocalOrigin::Temporary);
    let blocks = (0..7).map(|_| main.add_block()).collect::<Vec<_>>();
    main.entry = Some(blocks[0]);
    let entry = &mut main.blocks[blocks[0].index()];
    entry.push(OperationKind::Copy { destination: int_temp, operand: Operand::Copy(Place::local(input)) }, location);
    entry.push(OperationKind::Unary { destination: int_temp, operator: UnaryOperator::Plus, operand: integer(&types, 1) }, location);
    entry.push(OperationKind::Binary { destination: int_temp, operator: BinaryOperator::BitwiseAnd, left: Operand::Copy(Place::local(input)), right: integer(&types, 1) }, location);
    entry.push(OperationKind::Convert { destination: float_temp, conversion: NumericConversion::IntToFloat, operand: Operand::Copy(Place::local(input)) }, location);
    entry.push(OperationKind::Aggregate { destination: point_local, aggregate: Aggregate::Struct { definition: point_definition, fields: vec![
        (point_x, Operand::Copy(Place::local(input))),
        (point_name, constant(types.string, ConstantValue::String(b"p\n\0".to_vec()))),
    ] } }, location);
    entry.push(OperationKind::Aggregate { destination: pair_local, aggregate: Aggregate::Tuple { definition: pair_definition, elements: vec![
        Operand::Copy(Place::local(input)), constant(types.float, ConstantValue::Float(0)),
    ] } }, location);
    entry.push(OperationKind::Aggregate { destination: list_local, aggregate: Aggregate::List { ty: list_type, elements: vec![integer(&types, 1)] } }, location);
    entry.push(OperationKind::Aggregate { destination: map_local, aggregate: Aggregate::Mapping { ty: map_type, entries: vec![(integer(&types, 1), constant(types.string, ConstantValue::String(b"one".to_vec())))] } }, location);
    entry.push(OperationKind::UnionInject { destination: choice_local, union_type: choice_type, alternative: choice_a, payload: Operand::Copy(Place::local(input)) }, location);
    entry.push(OperationKind::UnionTest { destination: bool_temp, union: Operand::Copy(Place::local(choice_local)), alternative: choice_a }, location);
    entry.push(OperationKind::UnionPayload { destination: int_temp, union: Operand::Copy(Place::local(choice_local)), alternative: choice_a }, location);
    entry.push(OperationKind::StringIndex { destination: character_temp, string: Operand::Copy(Place::local(string_local)), index: Operand::Copy(Place::local(index)), failure: string_index_failure }, location);
    entry.push(OperationKind::Assign { destination: Place::projected(point_local, vec![Projection::StructField { definition: point_definition, field: point_x, storage: MemberStorage::Inline }]), value: integer(&types, 3) }, location);
    entry.push(OperationKind::Copy { destination: int_temp, operand: Operand::Copy(Place::projected(pair_local, vec![Projection::TupleField { definition: pair_definition, field: pair_first }])) }, location);
    entry.push(OperationKind::Assign { destination: Place::projected(list_local, vec![Projection::ListIndex { index, failure: list_index_failure }]), value: integer(&types, 4) }, location);
    entry.push(OperationKind::Assign { destination: Place::projected(map_local, vec![Projection::MapIndex { key: index, failure: map_index_failure }]), value: constant(types.string, ConstantValue::String(b"four".to_vec())) }, location);
    entry.push(OperationKind::Call { destination: int_temp, function: identity_id, arguments: vec![Operand::Copy(Place::local(input))] }, location);
    entry.push(OperationKind::Intrinsic { destination: unit_temp, intrinsic: Intrinsic::Print, arguments: vec![Operand::Copy(Place::local(pair_local))], failure: output_failure }, location);
    entry.push(OperationKind::Check(RuntimeCheck::IterationUnlocked { receiver: Operand::Copy(Place::local(list_local)), failure: append_failure }), location);
    entry.push(OperationKind::Builtin { destination: unit_temp, method: BuiltinMethod::ListAppend, receiver: Operand::Copy(Place::local(list_local)), arguments: vec![integer(&types, 2)], failure: Some(append_failure) }, location);
    entry.push(OperationKind::Builtin { destination: int_temp, method: BuiltinMethod::ListLen, receiver: Operand::Copy(Place::local(list_local)), arguments: vec![], failure: None }, location);
    entry.push(OperationKind::Check(RuntimeCheck::IterationUnlocked { receiver: Operand::Copy(Place::local(map_local)), failure: remove_failure }), location);
    entry.push(OperationKind::Builtin { destination: unit_temp, method: BuiltinMethod::MapRemoveKey, receiver: Operand::Copy(Place::local(map_local)), arguments: vec![integer(&types, 1)], failure: Some(remove_failure) }, location);
    entry.push(OperationKind::Builtin { destination: int_temp, method: BuiltinMethod::MapLen, receiver: Operand::Copy(Place::local(map_local)), arguments: vec![], failure: None }, location);
    entry.push(OperationKind::Builtin { destination: int_temp, method: BuiltinMethod::StrLen, receiver: Operand::Copy(Place::local(string_local)), arguments: vec![], failure: None }, location);
    entry.push(OperationKind::BeginIteration { iterable: Operand::Copy(Place::local(list_local)) }, location);
    entry.push(OperationKind::IterationValue { destination: int_temp, iterable: Operand::Copy(Place::local(list_local)), index: Operand::Copy(Place::local(index)) }, location);
    entry.push(OperationKind::EndIteration { iterable: Operand::Copy(Place::local(list_local)) }, location);
    entry.terminate(TerminatorKind::Branch { condition: Operand::Copy(Place::local(bool_temp)), then_block: blocks[1], else_block: blocks[2] }, location);
    main.blocks[blocks[1].index()].terminate(TerminatorKind::Switch { union: Operand::Copy(Place::local(choice_local)), targets: vec![(choice_a, blocks[3]), (choice_b, blocks[4])] }, location);
    main.blocks[blocks[2].index()].terminate(TerminatorKind::Panic { message: constant(types.string, ConstantValue::String(b"failed".to_vec())), failure: panic_failure }, location);
    main.blocks[blocks[3].index()].terminate(TerminatorKind::Return(Operand::Copy(Place::local(input))), location);
    main.blocks[blocks[4].index()].terminate(TerminatorKind::Unreachable, location);
    main.blocks[blocks[5].index()].terminate(TerminatorKind::Jump(blocks[3]), location);
    main.blocks[blocks[6].index()].terminate(TerminatorKind::ErrorPanic { payload: integer(&types, 7), failure: error_failure }, location);
    let main_id = program.add_function(main);
    program.entry = Some(main_id);

    assert!(program.validate().is_ok());
    let rendered = program.render();
    assert!(rendered.contains("bb5:\n    jump bb3"));
    assert!(rendered.contains("bb6:\n    error-panic const ty1 7"));
    assert!(rendered.contains("const ty3 b\"p\\n\\0\""));
    assert!(rendered.contains("switch copy _8 -> [alt0: bb3, alt1: bb4]"));
    assert!(rendered.contains("begin-iteration copy _9"));
    assert!(rendered.contains("_2 = iteration-value copy _9, copy _1"));
}

#[test]
fn construction_owns_all_temporary_inputs() {
    let (mut program, types, location) = program();
    let function_id;
    {
        let definition_name = String::from("Owned layout");
        let field_name = String::from("owned field");
        let tag = String::from("OwnedTag");
        let mut definition = NominalDefinition::structure(definition_name);
        definition.add_struct_field(field_name, types.int, MemberStorage::Inline);
        let definition_id = program.add_definition(definition);
        program.intern_type(Type::Nominal(definition_id));
        program.intern_type(Type::Union(vec![
            UnionAlternative::tagged(tag, types.int),
            UnionAlternative::tagged(String::from("OtherTag"), types.float),
        ]));
        let name = String::from("owned function");
        let local_name = String::from("owned local");
        let bytes = Vec::from(&b"owned bytes"[..]);
        let mut function = Function::new(name, types.string);
        let local = function.add_local(types.string, Some(local_name), LocalOrigin::Binding);
        let block = function.add_block();
        function.entry = Some(block);
        function.blocks[block.index()].push(OperationKind::Copy { destination: local, operand: constant(types.string, ConstantValue::String(bytes)) }, location);
        function.blocks[block.index()].terminate(TerminatorKind::Return(Operand::Copy(Place::local(local))), location);
        function_id = program.add_function(function);
    }
    program.entry = Some(function_id);
    assert!(program.validate().is_ok());
    assert!(program.render().contains("owned bytes"));
    assert!(program.render().contains("Owned layout"));
    assert_eq!(program.source.filename, "test.sao2".to_owned());
}

#[test]
fn malformed_ir_reports_first_operation_with_full_context() {
    let (mut program, types, location) = program();
    let mut function = Function::new("main", types.int);
    let destination = function.add_local(types.int, None, LocalOrigin::Temporary);
    let block = function.add_block();
    function.entry = Some(block);
    function.blocks[block.index()].push(OperationKind::Copy {
        destination,
        operand: constant(types.boolean, ConstantValue::Boolean(true)),
    }, location);
    function.blocks[block.index()].terminate(TerminatorKind::Return(integer(&types, 0)), location);
    let main = program.add_function(function);
    program.entry = Some(main);

    let error = program.validate().unwrap_err();
    assert_eq!(error.function, Some(main));
    assert_eq!(error.block, Some(block));
    assert_eq!(error.site, Some(OperationSite::Operation(0)));
    assert_eq!(error.to_string(), "invalid IR in fn0 bb0 op0: copy type does not match destination");
}

#[test]
fn validates_iteration_operation_types() {
    let (mut program, types, location) = program();
    let mut function = Function::new("main", types.int);
    let block = function.add_block();
    function.entry = Some(block);
    function.blocks[block.index()].push(OperationKind::BeginIteration { iterable: integer(&types, 1) }, location);
    function.blocks[block.index()].terminate(TerminatorKind::Return(integer(&types, 0)), location);
    let main = program.add_function(function);
    program.entry = Some(main);
    assert_eq!(program.validate().unwrap_err().message, "iteration operand is not a list or map");
}

#[test]
fn rejects_out_of_range_identities_and_unterminated_blocks() {
    let (mut program, types, location) = program();
    let main = add_returning_function(&mut program, "main", types.int, integer(&types, 0), location);
    program.entry = Some(FunctionId(99));
    assert!(program.validate().unwrap_err().message.contains("fn99"));

    program.entry = Some(main);
    program.functions[main.index()].blocks[0].terminator = None;
    let error = program.validate().unwrap_err();
    assert_eq!(error.site, Some(OperationSite::Terminator));
    assert_eq!(error.message, "block is not terminated");
}

#[test]
fn rejects_every_category_of_out_of_range_identity() {
    let (mut invalid_type, types, location) = program();
    let main = add_returning_function(&mut invalid_type, "main", TypeId(90), integer(&types, 0), location);
    invalid_type.entry = Some(main);
    assert!(invalid_type.validate().unwrap_err().message.contains("ty90"));

    let (mut invalid_definition, types, location) = program();
    invalid_definition.types.push(Type::Nominal(DefinitionId(91)));
    let main = add_returning_function(&mut invalid_definition, "main", types.int, integer(&types, 0), location);
    invalid_definition.entry = Some(main);
    assert!(invalid_definition.validate().unwrap_err().message.contains("def91"));

    let (mut invalid_local, types, location) = program();
    let main = add_returning_function(&mut invalid_local, "main", types.int, Operand::Copy(Place::local(LocalId(92))), location);
    invalid_local.entry = Some(main);
    assert!(invalid_local.validate().unwrap_err().message.contains("_92"));

    let (mut invalid_location, types, location) = program();
    let main = add_returning_function(&mut invalid_location, "main", types.int, integer(&types, 0), location);
    invalid_location.entry = Some(main);
    invalid_location.functions[main.index()].blocks[0].terminator.as_mut().unwrap().location = LocationId(93);
    assert!(invalid_location.validate().unwrap_err().message.contains("loc93"));

    let (mut invalid_function, types, location) = program();
    let mut function = Function::new("main", types.int);
    let destination = function.add_local(types.int, None, LocalOrigin::Temporary);
    let block = function.add_block();
    function.entry = Some(block);
    function.blocks[0].push(OperationKind::Call { destination, function: FunctionId(94), arguments: vec![] }, location);
    function.blocks[0].terminate(TerminatorKind::Return(integer(&types, 0)), location);
    let main = invalid_function.add_function(function);
    invalid_function.entry = Some(main);
    assert!(invalid_function.validate().unwrap_err().message.contains("fn94"));

    let (mut invalid_field, types, location) = program();
    let mut tuple = NominalDefinition::tuple("One");
    tuple.add_tuple_field(types.int);
    let definition = invalid_field.add_definition(tuple);
    let tuple_ty = invalid_field.intern_type(Type::Nominal(definition));
    let mut function = Function::new("main", types.int);
    let tuple_local = function.add_local(tuple_ty, None, LocalOrigin::Binding);
    let destination = function.add_local(types.int, None, LocalOrigin::Temporary);
    let block = function.add_block();
    function.entry = Some(block);
    function.blocks[0].push(OperationKind::Copy { destination, operand: Operand::Copy(Place::projected(tuple_local, vec![Projection::TupleField { definition, field: FieldId(95) }])) }, location);
    function.blocks[0].terminate(TerminatorKind::Return(integer(&types, 0)), location);
    let main = invalid_field.add_function(function);
    invalid_field.entry = Some(main);
    assert!(invalid_field.validate().unwrap_err().message.contains("field95"));

    let (mut invalid_alternative, types, location) = program();
    let union_ty = invalid_alternative.intern_type(Type::Union(vec![UnionAlternative::untagged(types.int), UnionAlternative::untagged(types.float)]));
    let mut function = Function::new("main", types.int);
    let union_local = function.add_local(union_ty, None, LocalOrigin::Binding);
    let destination = function.add_local(types.int, None, LocalOrigin::Temporary);
    let block = function.add_block();
    function.entry = Some(block);
    function.blocks[0].push(OperationKind::UnionPayload { destination, union: Operand::Copy(Place::local(union_local)), alternative: AlternativeId(96) }, location);
    function.blocks[0].terminate(TerminatorKind::Return(integer(&types, 0)), location);
    let main = invalid_alternative.add_function(function);
    invalid_alternative.entry = Some(main);
    assert!(invalid_alternative.validate().unwrap_err().message.contains("alt96"));
}

#[test]
fn rejects_malformed_definitions_constants_projections_calls_and_edges() {
    let (mut program, types, location) = program();
    let mut malformed = NominalDefinition::union("Bad");
    malformed.add_alternative(UnionAlternative::untagged(types.int));
    program.add_definition(malformed);
    let main = add_returning_function(&mut program, "main", types.int, integer(&types, 0), location);
    program.entry = Some(main);
    assert!(program.validate().unwrap_err().message.contains("fewer than two"));

    program.definitions.clear();
    program.functions[main.index()].blocks[0].terminator = Some(Terminator {
        kind: TerminatorKind::Jump(BlockId(17)), location,
    });
    assert!(program.validate().unwrap_err().message.contains("bb17"));

    program.functions[main.index()].blocks[0].terminator = Some(Terminator {
        kind: TerminatorKind::Return(constant(types.int, ConstantValue::Boolean(false))), location,
    });
    assert_eq!(program.validate().unwrap_err().message, "constant value does not agree with its type");
}

#[test]
fn validates_failure_sites_and_required_numeric_check_order() {
    let (mut program, types, location) = program();
    let function_id = FunctionId::from_index(0);
    let failure = program.intern_failure_site(FailureSite {
        location,
        function: function_id,
        operation: FailureOperation::IntegerAdd,
        line: 1,
        column: 5,
    });
    let mut function = Function::new("main", types.int);
    let result = function.add_local(types.int, None, LocalOrigin::Temporary);
    let block = function.add_block();
    function.entry = Some(block);
    let left = integer(&types, i64::MIN);
    let right = integer(&types, 1);
    function.blocks[block.index()].push(OperationKind::Check(RuntimeCheck::IntegerOverflow {
        operation: IntegerOperation::Add,
        left: left.clone(),
        right: right.clone(),
        failure,
    }), location);
    function.blocks[block.index()].push(OperationKind::Binary {
        destination: result,
        operator: BinaryOperator::Add,
        left,
        right,
    }, location);
    function.blocks[block.index()].terminate(TerminatorKind::Return(Operand::Copy(Place::local(result))), location);
    let main = program.add_function(function);
    program.entry = Some(main);

    assert!(program.validate().is_ok());
    assert!(program.render().contains("fail0 = loc0 fn0 integer-add at 1:5"));
    assert!(program.render().contains("const ty1 -9223372036854775808"));

    let mut missing_check = program.clone();
    missing_check.functions[main.index()].blocks[block.index()].operations.remove(0);
    assert!(missing_check.validate().unwrap_err().message.contains("pre-check"));

    let mut duplicate = program.clone();
    duplicate.failure_sites.push(duplicate.failure_sites[0]);
    assert!(duplicate.validate().unwrap_err().message.contains("duplicates"));
}

#[test]
fn escaped_bytes_can_be_quoted_and_lose_nothing() {
    assert_eq!(escape_bytes(b""), "");
    assert_eq!(escape_bytes(b"a\\\"'\n\r\t\0~\x7f\xff"), "a\\\\\\\"\\'\\n\\r\\t\\0~\\x7f\\xff");
    let all: Vec<u8> = (0..=255).collect();
    for left in &all {
        for right in &all {
            assert_eq!(escape_bytes(&[*left]) == escape_bytes(&[*right]), left == right);
        }
        let joined = escape_bytes(&[*left, b'x', 0]);
        assert_eq!(joined, escape_bytes(&[*left]) + &escape_bytes(b"x\0"));
    }
    assert!(escape_bytes(&all).chars().all(|shown| (' '..='~').contains(&shown)));
}
