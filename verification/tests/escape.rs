use sao2::escape::{analyze, AllocationClass, AllocationId};
use sao2::ir::{
    Aggregate, BlockId, ByteSpan, Constant, ConstantValue, Function, FunctionId, LocalOrigin, MemberStorage,
    NominalDefinition, Operand, OperationKind, Place, PrimitiveType, Program, TerminatorKind, Type,
};

fn program(return_reference: bool) -> Program {
    let mut program = Program::new("escape.sao2".to_owned(), 1);
    let unit = program.intern_type(Type::Unit);
    let integer = program.intern_type(Type::Primitive(PrimitiveType::Int));
    program.intern_type(Type::Primitive(PrimitiveType::Float));
    program.intern_type(Type::Primitive(PrimitiveType::Str));
    program.intern_type(Type::Primitive(PrimitiveType::Bool));
    program.intern_type(Type::Primitive(PrimitiveType::Char));
    let mut point = NominalDefinition::structure("Point");
    let field = point.add_struct_field("x", integer, MemberStorage::Inline);
    let definition = program.add_definition(point);
    let point_type = program.intern_type(Type::Nominal(definition));
    let result = if return_reference { point_type } else { unit };
    let mut function = Function::new("main", result);
    let local = function.add_local(point_type, None, LocalOrigin::Temporary);
    let block = function.add_block();
    function.entry = Some(block);
    let location = program.intern_location(ByteSpan::new(0, 0));
    function.blocks[block.index()].push(OperationKind::Aggregate { destination: local, aggregate: Aggregate::Struct { definition, fields: vec![(field, Operand::Constant(Constant { ty: integer, value: ConstantValue::Integer(1) }))] } }, location);
    function.blocks[block.index()].terminate(if return_reference { TerminatorKind::Return(Operand::Copy(Place::local(local))) } else { TerminatorKind::Return(Operand::Constant(Constant { ty: unit, value: ConstantValue::Unit })) }, location);
    let main = program.add_function(function);
    program.entry = Some(main);
    program
}

#[test]
fn local_struct_allocation_is_scoped_but_returning_it_is_heap() {
    let local = analyze(&program(false)).unwrap();
    assert_eq!(local.allocations[0].1, AllocationClass::Scoped);
    let allocation = local.allocations[0].0;
    assert_eq!(local.allocation_class(allocation), Some(AllocationClass::Scoped));
    assert!(local.function_has_scoped(FunctionId::from_index(0)));
    assert_eq!(local.allocation_class(AllocationId {
        function: FunctionId::from_index(0), block: BlockId::from_index(0), operation: 1,
    }), None);
    assert!(!local.summaries[0].conservative);
    let returned = analyze(&program(true)).unwrap();
    assert_eq!(returned.allocations[0].1, AllocationClass::Heap);
    assert!(!returned.function_has_scoped(FunctionId::from_index(0)));
    assert_eq!(local.render(), analyze(&program(false)).unwrap().render());
}

#[test]
fn a_plan_is_the_only_valid_one_for_its_program() {
    let program = program(false);
    let plan = analyze(&program).unwrap();
    assert!(plan.validate(&program).is_ok());
    let mut shorter = plan.clone();
    shorter.allocations.pop();
    assert!(shorter.validate(&program).unwrap_err().to_string().starts_with("escape analysis invariant"));
    let mut other = plan.clone();
    other.allocations[0].1 = AllocationClass::Heap;
    assert!(other.validate(&program).is_err());
    let mut unmarked = plan.clone();
    unmarked.has_scoped[0] = false;
    assert!(unmarked.validate(&program).is_err());
}

#[test]
fn an_invalid_program_has_no_plan() {
    let mut broken = program(true);
    broken.entry = None;
    let error = analyze(&broken).unwrap_err();
    assert!(error.to_string().starts_with("escape analysis invariant"), "{}", error.to_string());
    assert_eq!(error.message, broken.validate().unwrap_err().message);
}
