//! The deterministic text form of a program.

use crate::ir::{
    Aggregate, AlternativeConstructor, AlternativeId, BasicBlock, BinaryOperator, BlockId, BuiltinMethod,
    ByteSpan, ConstantValue, DefinitionLayout, FailureOperation, FailureSite, FieldId, Function, FunctionId,
    IntegerOperation, Intrinsic, Local, LocalId, LocalOrigin, MemberStorage, NominalDefinition,
    NumericConversion, Operand, Operation, OperationKind, Place, PrimitiveType, Program, Projection,
    RuntimeCheck, SourceMetadata, StructField, Terminator, TerminatorKind, Type, TypeId, UnaryOperator,
    UnionAlternative,
};
use crate::text::{decimal, push_decimal, push_signed, signed_decimal};
use vstd::prelude::*;
use vstd::string::*;
use vstd::utf8::*;

verus! {

/// The lower-case hexadecimal digit with the given value.
pub open spec fn hex_digit(value: nat) -> char {
    if value < 10 {
        (48 + value) as char
    } else {
        (87 + value) as char
    }
}

/// A number in the given count of hexadecimal digits.
pub open spec fn hexadecimal(value: nat, width: nat) -> Seq<char>
    decreases width,
{
    if width == 0 {
        seq![]
    } else {
        hexadecimal(value / 16, (width - 1) as nat).push(hex_digit(value % 16))
    }
}

fn push_hexadecimal(out: &mut String, value: u64, width: u8)
    ensures
        final(out)@ == old(out)@ + hexadecimal(value as nat, width as nat),
    decreases width,
{
    if width > 0 {
        push_hexadecimal(out, value / 16, width - 1);
        let digit = (value % 16) as u8;
        let ghost before = out@;
        if digit < 10 {
            out.push((48 + digit) as char);
        } else {
            out.push((87 + digit) as char);
        }
        assert(out@ =~= old(out)@ + hexadecimal(value as nat, width as nat));
    } else {
        assert(out@ =~= old(out)@ + hexadecimal(value as nat, width as nat));
    }
}

/// One byte as it is shown between quotes.
pub open spec fn escaped_byte(byte: u8) -> Seq<char> {
    if byte == 92 {
        "\\\\"@
    } else if byte == 34 {
        "\\\""@
    } else if byte == 39 {
        "\\'"@
    } else if byte == 10 {
        "\\n"@
    } else if byte == 13 {
        "\\r"@
    } else if byte == 9 {
        "\\t"@
    } else if byte == 0 {
        "\\0"@
    } else if 0x20 <= byte <= 0x7e {
        seq![byte as char]
    } else {
        "\\x"@ + hexadecimal(byte as nat, 2)
    }
}

/// The first `count` bytes as they are shown between quotes.
pub open spec fn escaped(bytes: Seq<u8>, count: nat) -> Seq<char>
    decreases count,
{
    if count == 0 {
        seq![]
    } else {
        escaped(bytes, (count - 1) as nat) + escaped_byte(bytes[count - 1])
    }
}

fn push_escaped(out: &mut String, byte: u8)
    ensures
        final(out)@ == old(out)@ + escaped_byte(byte),
{
    if byte == 92 {
        out.append("\\\\");
    } else if byte == 34 {
        out.append("\\\"");
    } else if byte == 39 {
        out.append("\\'");
    } else if byte == 10 {
        out.append("\\n");
    } else if byte == 13 {
        out.append("\\r");
    } else if byte == 9 {
        out.append("\\t");
    } else if byte == 0 {
        out.append("\\0");
    } else if 0x20 <= byte && byte <= 0x7e {
        out.push(byte as char);
        assert(out@ =~= old(out)@ + escaped_byte(byte));
    } else {
        out.append("\\x");
        push_hexadecimal(out, byte as u64, 2);
        assert(out@ =~= old(out)@ + escaped_byte(byte));
    }
}

pub open spec fn escape_bytes_text(bytes: Seq<u8>) -> Seq<char> {
    escaped(bytes, bytes.len())
}

pub fn escape_bytes(bytes: &[u8]) -> (result: String)
    ensures
        result@ == escape_bytes_text(bytes@),
{
    let mut text = String::new();
    let mut index: usize = 0;
    while index < bytes.len()
        invariant
            index <= bytes@.len(),
            text@ == escaped(bytes@, index as nat),
        decreases bytes@.len() - index,
    {
        push_escaped(&mut text, bytes[index]);
        index = index + 1;
    }
    text
}

/// A text as it is shown between quotes.
pub open spec fn quoted_text(text: &String) -> Seq<char> {
    "\""@ + escape_bytes_text(encode_utf8(text@)) + "\""@
}

fn render_quoted(text: &String) -> (result: String)
    ensures
        result@ == quoted_text(text),
{
    let mut shown = "\"".to_owned();
    shown.append(escape_bytes(text.as_str().as_bytes()).as_str());
    shown.append("\"");
    shown
}

/// The name of a primitive type.
pub open spec fn primitive_text(value: PrimitiveType) -> Seq<char> {
    match value {
        PrimitiveType::Int => "int"@,
        PrimitiveType::Float => "float"@,
        PrimitiveType::Str => "str"@,
        PrimitiveType::Bool => "bool"@,
        PrimitiveType::Char => "char"@,
    }
}

fn primitive_name(value: PrimitiveType) -> (result: &'static str)
    ensures
        result@ == primitive_text(value),
{
    match value {
        PrimitiveType::Int => "int",
        PrimitiveType::Float => "float",
        PrimitiveType::Str => "str",
        PrimitiveType::Bool => "bool",
        PrimitiveType::Char => "char",
    }
}

/// How a field is held.
pub open spec fn storage_text(value: MemberStorage) -> Seq<char> {
    match value {
        MemberStorage::Inline => "inline"@,
        MemberStorage::Referenced => "referenced"@,
    }
}

fn storage_name(value: MemberStorage) -> (result: &'static str)
    ensures
        result@ == storage_text(value),
{
    match value {
        MemberStorage::Inline => "inline",
        MemberStorage::Referenced => "referenced",
    }
}

/// Where a local comes from.
pub open spec fn origin_text(value: LocalOrigin) -> Seq<char> {
    match value {
        LocalOrigin::Parameter => "parameter"@,
        LocalOrigin::Binding => "binding"@,
        LocalOrigin::Temporary => "temporary"@,
    }
}

fn origin_name(value: LocalOrigin) -> (result: &'static str)
    ensures
        result@ == origin_text(value),
{
    match value {
        LocalOrigin::Parameter => "parameter",
        LocalOrigin::Binding => "binding",
        LocalOrigin::Temporary => "temporary",
    }
}

/// The name of a unary operator.
pub open spec fn unary_text(value: UnaryOperator) -> Seq<char> {
    match value {
        UnaryOperator::LogicalNot => "not"@,
        UnaryOperator::BitwiseNot => "bit-not"@,
        UnaryOperator::Plus => "positive"@,
        UnaryOperator::Minus => "negative"@,
    }
}

fn unary_name(value: UnaryOperator) -> (result: &'static str)
    ensures
        result@ == unary_text(value),
{
    match value {
        UnaryOperator::LogicalNot => "not",
        UnaryOperator::BitwiseNot => "bit-not",
        UnaryOperator::Plus => "positive",
        UnaryOperator::Minus => "negative",
    }
}

/// The name of a binary operator.
pub open spec fn binary_text(value: BinaryOperator) -> Seq<char> {
    match value {
        BinaryOperator::BitwiseOr => "bit-or"@,
        BinaryOperator::BitwiseXor => "bit-xor"@,
        BinaryOperator::BitwiseAnd => "bit-and"@,
        BinaryOperator::Equal => "equal"@,
        BinaryOperator::NotEqual => "not-equal"@,
        BinaryOperator::Less => "less"@,
        BinaryOperator::LessEqual => "less-equal"@,
        BinaryOperator::Greater => "greater"@,
        BinaryOperator::GreaterEqual => "greater-equal"@,
        BinaryOperator::In => "in"@,
        BinaryOperator::ShiftLeft => "shift-left"@,
        BinaryOperator::ShiftRight => "shift-right"@,
        BinaryOperator::Add => "add"@,
        BinaryOperator::Subtract => "subtract"@,
        BinaryOperator::Multiply => "multiply"@,
        BinaryOperator::Divide => "divide"@,
        BinaryOperator::Remainder => "remainder"@,
    }
}

fn binary_name(value: BinaryOperator) -> (result: &'static str)
    ensures
        result@ == binary_text(value),
{
    match value {
        BinaryOperator::BitwiseOr => "bit-or",
        BinaryOperator::BitwiseXor => "bit-xor",
        BinaryOperator::BitwiseAnd => "bit-and",
        BinaryOperator::Equal => "equal",
        BinaryOperator::NotEqual => "not-equal",
        BinaryOperator::Less => "less",
        BinaryOperator::LessEqual => "less-equal",
        BinaryOperator::Greater => "greater",
        BinaryOperator::GreaterEqual => "greater-equal",
        BinaryOperator::In => "in",
        BinaryOperator::ShiftLeft => "shift-left",
        BinaryOperator::ShiftRight => "shift-right",
        BinaryOperator::Add => "add",
        BinaryOperator::Subtract => "subtract",
        BinaryOperator::Multiply => "multiply",
        BinaryOperator::Divide => "divide",
        BinaryOperator::Remainder => "remainder",
    }
}

/// The name of a conversion.
pub open spec fn conversion_text(value: NumericConversion) -> Seq<char> {
    match value {
        NumericConversion::IntToFloat => "int-to-float"@,
        NumericConversion::FloatToInt => "float-to-int"@,
    }
}

fn conversion_name(value: NumericConversion) -> (result: &'static str)
    ensures
        result@ == conversion_text(value),
{
    match value {
        NumericConversion::IntToFloat => "int-to-float",
        NumericConversion::FloatToInt => "float-to-int",
    }
}

/// The name of an intrinsic function.
pub open spec fn intrinsic_text(value: Intrinsic) -> Seq<char> {
    match value {
        Intrinsic::Print => "print"@,
        Intrinsic::Println => "println"@,
    }
}

fn intrinsic_name(value: Intrinsic) -> (result: &'static str)
    ensures
        result@ == intrinsic_text(value),
{
    match value {
        Intrinsic::Print => "print",
        Intrinsic::Println => "println",
    }
}

/// The name of a built-in method.
pub open spec fn builtin_text(value: BuiltinMethod) -> Seq<char> {
    match value {
        BuiltinMethod::ListAppend => "list.append"@,
        BuiltinMethod::ListRemoveIndex => "list.remove-index"@,
        BuiltinMethod::ListLen => "list.len"@,
        BuiltinMethod::MapRemoveKey => "map.remove-key"@,
        BuiltinMethod::MapLen => "map.len"@,
        BuiltinMethod::StrLen => "str.len"@,
    }
}

fn builtin_name(value: BuiltinMethod) -> (result: &'static str)
    ensures
        result@ == builtin_text(value),
{
    match value {
        BuiltinMethod::ListAppend => "list.append",
        BuiltinMethod::ListRemoveIndex => "list.remove-index",
        BuiltinMethod::ListLen => "list.len",
        BuiltinMethod::MapRemoveKey => "map.remove-key",
        BuiltinMethod::MapLen => "map.len",
        BuiltinMethod::StrLen => "str.len",
    }
}

/// The name of an overflow check.
pub open spec fn integer_operation_text(value: IntegerOperation) -> Seq<char> {
    match value {
        IntegerOperation::Add => "add-overflow"@,
        IntegerOperation::Subtract => "subtract-overflow"@,
        IntegerOperation::Multiply => "multiply-overflow"@,
        IntegerOperation::ShiftLeft => "shift-left-overflow"@,
    }
}

fn integer_operation_name(value: IntegerOperation) -> (result: &'static str)
    ensures
        result@ == integer_operation_text(value),
{
    match value {
        IntegerOperation::Add => "add-overflow",
        IntegerOperation::Subtract => "subtract-overflow",
        IntegerOperation::Multiply => "multiply-overflow",
        IntegerOperation::ShiftLeft => "shift-left-overflow",
    }
}

/// The name of what fails.
pub open spec fn failure_operation_text(value: FailureOperation) -> Seq<char> {
    match value {
        FailureOperation::IntegerAdd => "integer-add"@,
        FailureOperation::IntegerSubtract => "integer-subtract"@,
        FailureOperation::IntegerMultiply => "integer-multiply"@,
        FailureOperation::IntegerNegation => "integer-negation"@,
        FailureOperation::IntegerDivision => "integer-division"@,
        FailureOperation::IntegerRemainder => "integer-remainder"@,
        FailureOperation::ShiftLeft => "shift-left"@,
        FailureOperation::ShiftRight => "shift-right"@,
        FailureOperation::FloatAdd => "float-add"@,
        FailureOperation::FloatSubtract => "float-subtract"@,
        FailureOperation::FloatMultiply => "float-multiply"@,
        FailureOperation::FloatDivision => "float-division"@,
        FailureOperation::FloatToInt => "float-to-int"@,
        FailureOperation::ListIndex => "list-index"@,
        FailureOperation::MapIndex => "map-index"@,
        FailureOperation::StringIndex => "string-index"@,
        FailureOperation::ListAppend => "list-append"@,
        FailureOperation::ListRemoveIndex => "list-remove-index"@,
        FailureOperation::MapRemoveKey => "map-remove-key"@,
        FailureOperation::Output => "output"@,
        FailureOperation::ExplicitPanic => "explicit-panic"@,
        FailureOperation::UnhandledError => "unhandled-error"@,
    }
}

fn failure_operation_name(value: FailureOperation) -> (result: &'static str)
    ensures
        result@ == failure_operation_text(value),
{
    match value {
        FailureOperation::IntegerAdd => "integer-add",
        FailureOperation::IntegerSubtract => "integer-subtract",
        FailureOperation::IntegerMultiply => "integer-multiply",
        FailureOperation::IntegerNegation => "integer-negation",
        FailureOperation::IntegerDivision => "integer-division",
        FailureOperation::IntegerRemainder => "integer-remainder",
        FailureOperation::ShiftLeft => "shift-left",
        FailureOperation::ShiftRight => "shift-right",
        FailureOperation::FloatAdd => "float-add",
        FailureOperation::FloatSubtract => "float-subtract",
        FailureOperation::FloatMultiply => "float-multiply",
        FailureOperation::FloatDivision => "float-division",
        FailureOperation::FloatToInt => "float-to-int",
        FailureOperation::ListIndex => "list-index",
        FailureOperation::MapIndex => "map-index",
        FailureOperation::StringIndex => "string-index",
        FailureOperation::ListAppend => "list-append",
        FailureOperation::ListRemoveIndex => "list-remove-index",
        FailureOperation::MapRemoveKey => "map-remove-key",
        FailureOperation::Output => "output",
        FailureOperation::ExplicitPanic => "explicit-panic",
        FailureOperation::UnhandledError => "unhandled-error",
    }
}

/// A projection of a place.
pub open spec fn projection_text(projection: &Projection) -> Seq<char> {
    match projection {
        Projection::StructField { definition, field, storage } => "."@ + definition.text() + "."@ + field.text() + ":"@
            + storage_text(*storage),
        Projection::TupleField { definition, field } => "."@ + definition.text() + "."@ + field.text(),
        Projection::ListIndex { index, failure } => "["@ + index.text() + " ! "@ + failure.text() + "]"@,
        Projection::MapIndex { key, failure } => "[key "@ + key.text() + " ! "@ + failure.text() + "]"@,
    }
}

fn render_projection(projection: &Projection) -> (result: String)
    ensures
        result@ == projection_text(projection),
{
    match projection {
        Projection::StructField { definition, field, storage } => {
            let mut text = ".".to_owned();
            text.append(definition.to_string().as_str());
            text.append(".");
            text.append(field.to_string().as_str());
            text.append(":");
            text.append(storage_name(*storage));
            text
        },
        Projection::TupleField { definition, field } => {
            let mut text = ".".to_owned();
            text.append(definition.to_string().as_str());
            text.append(".");
            text.append(field.to_string().as_str());
            text
        },
        Projection::ListIndex { index, failure } => {
            let mut text = "[".to_owned();
            text.append(index.to_string().as_str());
            text.append(" ! ");
            text.append(failure.to_string().as_str());
            text.append("]");
            text
        },
        Projection::MapIndex { key, failure } => {
            let mut text = "[key ".to_owned();
            text.append(key.to_string().as_str());
            text.append(" ! ");
            text.append(failure.to_string().as_str());
            text.append("]");
            text
        },
    }
}

/// The first `count` projections of a place.
pub open spec fn projections_text(items: Seq<Projection>, count: nat) -> Seq<char>
    decreases count,
{
    if count == 0 {
        seq![]
    } else {
        projections_text(items, (count - 1) as nat) + projection_text(&items[count - 1])
    }
}

fn render_projections(items: &Vec<Projection>) -> (result: String)
    ensures
        result@ == projections_text(items@, items@.len()),
{
    let mut text = String::new();
    let mut index: usize = 0;
    while index < items.len()
        invariant
            index <= items@.len(),
            text@ == projections_text(items@, index as nat),
        decreases items@.len() - index,
    {
        text.append(render_projection(&items[index]).as_str());
        index = index + 1;
    }
    text
}

/// A place.
pub open spec fn place_text(place: &Place) -> Seq<char> {
    place.local.text() + projections_text(place.projections@, place.projections@.len())
}

fn render_place(place: &Place) -> (result: String)
    ensures
        result@ == place_text(place),
{
    let mut text = place.local.to_string();
    text.append(render_projections(&place.projections).as_str());
    text
}

pub open spec fn boolean_text(value: bool) -> Seq<char> {
    if value {
        "true"@
    } else {
        "false"@
    }
}

fn boolean_name(value: bool) -> (result: &'static str)
    ensures
        result@ == boolean_text(value),
{
    if value {
        "true"
    } else {
        "false"
    }
}

pub open spec fn bits_text(bits: u64) -> Seq<char> {
    "0x"@ + hexadecimal(bits as nat, 16)
}

fn render_bits(bits: u64) -> (result: String)
    ensures
        result@ == bits_text(bits),
{
    let mut text = "0x".to_owned();
    push_hexadecimal(&mut text, bits, 16);
    text
}

pub open spec fn integer_text(value: i64) -> Seq<char> {
    signed_decimal(value as int)
}

fn render_integer(value: i64) -> (result: String)
    ensures
        result@ == integer_text(value),
{
    let mut text = String::new();
    push_signed(&mut text, value);
    assert(text@ =~= integer_text(value));
    text
}

pub open spec fn character_text(byte: u8) -> Seq<char> {
    escape_bytes_text(seq![byte])
}

fn render_character(byte: u8) -> (result: String)
    ensures
        result@ == character_text(byte),
{
    let mut bytes: Vec<u8> = Vec::new();
    bytes.push(byte);
    assert(bytes@ =~= seq![byte]);
    escape_bytes(bytes.as_slice())
}

pub open spec fn byte_string_text(bytes: &Vec<u8>) -> Seq<char> {
    escape_bytes_text(bytes@)
}

fn render_byte_string(bytes: &Vec<u8>) -> (result: String)
    ensures
        result@ == byte_string_text(bytes),
{
    escape_bytes(bytes.as_slice())
}

/// A constant value.
pub open spec fn constant_text(value: &ConstantValue) -> Seq<char> {
    match value {
        ConstantValue::Unit => "()"@,
        ConstantValue::Integer(value) => integer_text(*value),
        ConstantValue::Float(value) => bits_text(*value),
        ConstantValue::String(bytes) => "b\""@ + byte_string_text(bytes) + "\""@,
        ConstantValue::Character(byte) => "b'"@ + character_text(*byte) + "'"@,
        ConstantValue::Boolean(value) => boolean_text(*value),
    }
}

fn render_constant(value: &ConstantValue) -> (result: String)
    ensures
        result@ == constant_text(value),
{
    match value {
        ConstantValue::Unit => {
            let text = "()".to_owned();
            text
        },
        ConstantValue::Integer(value) => {
            let text = render_integer(*value);
            text
        },
        ConstantValue::Float(value) => {
            let text = render_bits(*value);
            text
        },
        ConstantValue::String(bytes) => {
            let mut text = "b\"".to_owned();
            text.append(render_byte_string(bytes).as_str());
            text.append("\"");
            text
        },
        ConstantValue::Character(byte) => {
            let mut text = "b'".to_owned();
            text.append(render_character(*byte).as_str());
            text.append("'");
            text
        },
        ConstantValue::Boolean(value) => {
            let text = boolean_name(*value).to_owned();
            text
        },
    }
}

/// An operand.
pub open spec fn operand_text(operand: &Operand) -> Seq<char> {
    match operand {
        Operand::Copy(from) => "copy "@ + place_text(from),
        Operand::Constant(value) => "const "@ + value.ty.text() + " "@ + constant_text(&value.value),
    }
}

fn render_operand(operand: &Operand) -> (result: String)
    ensures
        result@ == operand_text(operand),
{
    match operand {
        Operand::Copy(from) => {
            let mut text = "copy ".to_owned();
            text.append(render_place(from).as_str());
            text
        },
        Operand::Constant(value) => {
            let mut text = "const ".to_owned();
            text.append(value.ty.to_string().as_str());
            text.append(" ");
            text.append(render_constant(&value.value).as_str());
            text
        },
    }
}

/// The first `count` operands, separated by commas.
pub open spec fn operands_text(items: Seq<Operand>, count: nat) -> Seq<char>
    decreases count,
{
    if count == 0 {
        seq![]
    } else if count == 1 {
        operand_text(&items[0])
    } else {
        operands_text(items, (count - 1) as nat) + ", "@ + operand_text(&items[count - 1])
    }
}

fn render_operands(items: &Vec<Operand>) -> (result: String)
    ensures
        result@ == operands_text(items@, items@.len()),
{
    let mut text = String::new();
    let mut index: usize = 0;
    while index < items.len()
        invariant
            index <= items@.len(),
            text@ == operands_text(items@, index as nat),
        decreases items@.len() - index,
    {
        if index > 0 {
            text.append(", ");
        }
        text.append(render_operand(&items[index]).as_str());
        index = index + 1;
        assert(text@ =~= operands_text(items@, index as nat));
    }
    text
}

/// A field of a struct aggregate.
pub open spec fn field_value_text(field: &(FieldId, Operand)) -> Seq<char> {
    field.0.text() + ": "@ + operand_text(&field.1)
}

fn render_field_value(field: &(FieldId, Operand)) -> (result: String)
    ensures
        result@ == field_value_text(field),
{
    let mut text = field.0.to_string();
    text.append(": ");
    text.append(render_operand(&field.1).as_str());
    text
}

/// The first `count` fields, separated by commas.
pub open spec fn field_values_text(items: Seq<(FieldId, Operand)>, count: nat) -> Seq<char>
    decreases count,
{
    if count == 0 {
        seq![]
    } else if count == 1 {
        field_value_text(&items[0])
    } else {
        field_values_text(items, (count - 1) as nat) + ", "@ + field_value_text(&items[count - 1])
    }
}

fn render_field_values(items: &Vec<(FieldId, Operand)>) -> (result: String)
    ensures
        result@ == field_values_text(items@, items@.len()),
{
    let mut text = String::new();
    let mut index: usize = 0;
    while index < items.len()
        invariant
            index <= items@.len(),
            text@ == field_values_text(items@, index as nat),
        decreases items@.len() - index,
    {
        if index > 0 {
            text.append(", ");
        }
        text.append(render_field_value(&items[index]).as_str());
        index = index + 1;
        assert(text@ =~= field_values_text(items@, index as nat));
    }
    text
}

/// An entry of a map aggregate.
pub open spec fn entry_text(entry: &(Operand, Operand)) -> Seq<char> {
    operand_text(&entry.0) + ": "@ + operand_text(&entry.1)
}

fn render_entry(entry: &(Operand, Operand)) -> (result: String)
    ensures
        result@ == entry_text(entry),
{
    let mut text = render_operand(&entry.0);
    text.append(": ");
    text.append(render_operand(&entry.1).as_str());
    text
}

/// The first `count` entries, separated by commas.
pub open spec fn entries_text(items: Seq<(Operand, Operand)>, count: nat) -> Seq<char>
    decreases count,
{
    if count == 0 {
        seq![]
    } else if count == 1 {
        entry_text(&items[0])
    } else {
        entries_text(items, (count - 1) as nat) + ", "@ + entry_text(&items[count - 1])
    }
}

fn render_entries(items: &Vec<(Operand, Operand)>) -> (result: String)
    ensures
        result@ == entries_text(items@, items@.len()),
{
    let mut text = String::new();
    let mut index: usize = 0;
    while index < items.len()
        invariant
            index <= items@.len(),
            text@ == entries_text(items@, index as nat),
        decreases items@.len() - index,
    {
        if index > 0 {
            text.append(", ");
        }
        text.append(render_entry(&items[index]).as_str());
        index = index + 1;
        assert(text@ =~= entries_text(items@, index as nat));
    }
    text
}

/// A target of a switch.
pub open spec fn target_text(target: &(AlternativeId, BlockId)) -> Seq<char> {
    target.0.text() + ": "@ + target.1.text()
}

fn render_target(target: &(AlternativeId, BlockId)) -> (result: String)
    ensures
        result@ == target_text(target),
{
    let mut text = target.0.to_string();
    text.append(": ");
    text.append(target.1.to_string().as_str());
    text
}

/// The first `count` targets, separated by commas.
pub open spec fn targets_text(items: Seq<(AlternativeId, BlockId)>, count: nat) -> Seq<char>
    decreases count,
{
    if count == 0 {
        seq![]
    } else if count == 1 {
        target_text(&items[0])
    } else {
        targets_text(items, (count - 1) as nat) + ", "@ + target_text(&items[count - 1])
    }
}

fn render_targets(items: &Vec<(AlternativeId, BlockId)>) -> (result: String)
    ensures
        result@ == targets_text(items@, items@.len()),
{
    let mut text = String::new();
    let mut index: usize = 0;
    while index < items.len()
        invariant
            index <= items@.len(),
            text@ == targets_text(items@, index as nat),
        decreases items@.len() - index,
    {
        if index > 0 {
            text.append(", ");
        }
        text.append(render_target(&items[index]).as_str());
        index = index + 1;
        assert(text@ =~= targets_text(items@, index as nat));
    }
    text
}

/// The first `count` parameters, separated by commas.
pub open spec fn parameters_text(items: Seq<LocalId>, count: nat) -> Seq<char>
    decreases count,
{
    if count == 0 {
        seq![]
    } else if count == 1 {
        items[0].text()
    } else {
        parameters_text(items, (count - 1) as nat) + ", "@ + items[count - 1].text()
    }
}

fn render_parameters(items: &Vec<LocalId>) -> (result: String)
    ensures
        result@ == parameters_text(items@, items@.len()),
{
    let mut text = String::new();
    let mut index: usize = 0;
    while index < items.len()
        invariant
            index <= items@.len(),
            text@ == parameters_text(items@, index as nat),
        decreases items@.len() - index,
    {
        if index > 0 {
            text.append(", ");
        }
        text.append(items[index].to_string().as_str());
        index = index + 1;
        assert(text@ =~= parameters_text(items@, index as nat));
    }
    text
}

/// An alternative of a union.
pub open spec fn alternative_text(alternative: &UnionAlternative) -> Seq<char> {
    match &alternative.constructor {
        AlternativeConstructor::Untagged => "untagged("@ + alternative.payload.text() + ")"@,
        AlternativeConstructor::Tagged(tag) => "tagged "@ + quoted_text(tag) + "("@ + alternative.payload.text()
            + ")"@,
        AlternativeConstructor::Error => "Error("@ + alternative.payload.text() + ")"@,
    }
}

fn render_alternative(alternative: &UnionAlternative) -> (result: String)
    ensures
        result@ == alternative_text(alternative),
{
    let mut text = match &alternative.constructor {
        AlternativeConstructor::Untagged => "untagged(".to_owned(),
        AlternativeConstructor::Tagged(tag) => {
            let mut text = "tagged ".to_owned();
            text.append(render_quoted(tag).as_str());
            text.append("(");
            text
        },
        AlternativeConstructor::Error => "Error(".to_owned(),
    };
    text.append(alternative.payload.to_string().as_str());
    text.append(")");
    text
}

/// The first `count` alternatives, separated by commas.
pub open spec fn alternatives_text(items: Seq<UnionAlternative>, count: nat) -> Seq<char>
    decreases count,
{
    if count == 0 {
        seq![]
    } else if count == 1 {
        alternative_text(&items[0])
    } else {
        alternatives_text(items, (count - 1) as nat) + ", "@ + alternative_text(&items[count - 1])
    }
}

fn render_alternatives(items: &Vec<UnionAlternative>) -> (result: String)
    ensures
        result@ == alternatives_text(items@, items@.len()),
{
    let mut text = String::new();
    let mut index: usize = 0;
    while index < items.len()
        invariant
            index <= items@.len(),
            text@ == alternatives_text(items@, index as nat),
        decreases items@.len() - index,
    {
        if index > 0 {
            text.append(", ");
        }
        text.append(render_alternative(&items[index]).as_str());
        index = index + 1;
        assert(text@ =~= alternatives_text(items@, index as nat));
    }
    text
}

/// A type.
pub open spec fn type_form_text(ty: &Type) -> Seq<char> {
    match ty {
        Type::Unit => "unit"@,
        Type::Primitive(value) => primitive_text(*value),
        Type::List(element) => "list<"@ + element.text() + ">"@,
        Type::Mapping { key, value } => "map<"@ + key.text() + ", "@ + value.text() + ">"@,
        Type::Nominal(definition) => "nominal "@ + definition.text(),
        Type::Union(items) => "union ["@ + alternatives_text(items@, items@.len()) + "]"@,
    }
}

fn render_type_form(ty: &Type) -> (result: String)
    ensures
        result@ == type_form_text(ty),
{
    match ty {
        Type::Unit => {
            let text = "unit".to_owned();
            text
        },
        Type::Primitive(value) => {
            let text = primitive_name(*value).to_owned();
            text
        },
        Type::List(element) => {
            let mut text = "list<".to_owned();
            text.append(element.to_string().as_str());
            text.append(">");
            text
        },
        Type::Mapping { key, value } => {
            let mut text = "map<".to_owned();
            text.append(key.to_string().as_str());
            text.append(", ");
            text.append(value.to_string().as_str());
            text.append(">");
            text
        },
        Type::Nominal(definition) => {
            let mut text = "nominal ".to_owned();
            text.append(definition.to_string().as_str());
            text
        },
        Type::Union(items) => {
            let mut text = "union [".to_owned();
            text.append(render_alternatives(items).as_str());
            text.append("]");
            text
        },
    }
}

/// An aggregate.
pub open spec fn aggregate_text(aggregate: &Aggregate) -> Seq<char> {
    match aggregate {
        Aggregate::Struct { definition, fields } => "struct "@ + definition.text() + " {"@
            + field_values_text(fields@, fields@.len()) + "}"@,
        Aggregate::Tuple { definition, elements } => "tuple "@ + definition.text() + "("@
            + operands_text(elements@, elements@.len()) + ")"@,
        Aggregate::List { ty, elements } => "list "@ + ty.text() + "["@ + operands_text(elements@, elements@.len())
            + "]"@,
        Aggregate::Mapping { ty, entries: items } => "map "@ + ty.text() + " {"@ + entries_text(items@, items@.len())
            + "}"@,
    }
}

fn render_aggregate(aggregate: &Aggregate) -> (result: String)
    ensures
        result@ == aggregate_text(aggregate),
{
    match aggregate {
        Aggregate::Struct { definition, fields } => {
            let mut text = "struct ".to_owned();
            text.append(definition.to_string().as_str());
            text.append(" {");
            text.append(render_field_values(fields).as_str());
            text.append("}");
            text
        },
        Aggregate::Tuple { definition, elements } => {
            let mut text = "tuple ".to_owned();
            text.append(definition.to_string().as_str());
            text.append("(");
            text.append(render_operands(elements).as_str());
            text.append(")");
            text
        },
        Aggregate::List { ty, elements } => {
            let mut text = "list ".to_owned();
            text.append(ty.to_string().as_str());
            text.append("[");
            text.append(render_operands(elements).as_str());
            text.append("]");
            text
        },
        Aggregate::Mapping { ty, entries: items } => {
            let mut text = "map ".to_owned();
            text.append(ty.to_string().as_str());
            text.append(" {");
            text.append(render_entries(items).as_str());
            text.append("}");
            text
        },
    }
}

/// A runtime check.
pub open spec fn check_text(check: &RuntimeCheck) -> Seq<char> {
    match check {
        RuntimeCheck::IntegerOverflow { operation, left, right, failure } => "integer-"@
            + integer_operation_text(*operation) + " "@ + operand_text(left) + ", "@ + operand_text(right) + " ! "@
            + failure.text(),
        RuntimeCheck::IntegerNegation { operand: value, failure } => "integer-negation "@ + operand_text(value) + " ! "@
            + failure.text(),
        RuntimeCheck::Division { left, right, failure } => "division "@ + operand_text(left) + ", "@
            + operand_text(right) + " ! "@ + failure.text(),
        RuntimeCheck::Remainder { left, right, failure } => "remainder "@ + operand_text(left) + ", "@
            + operand_text(right) + " ! "@ + failure.text(),
        RuntimeCheck::ShiftRange { amount, failure } => "shift-range "@ + operand_text(amount) + " ! "@
            + failure.text(),
        RuntimeCheck::FiniteFloat { operand: value, failure } => "finite-float "@ + operand_text(value) + " ! "@
            + failure.text(),
        RuntimeCheck::NumericConversion { operand: value, conversion, failure } => "numeric-"@
            + conversion_text(*conversion) + " "@ + operand_text(value) + " ! "@ + failure.text(),
        RuntimeCheck::IterationUnlocked { receiver, failure } => "iteration-unlocked "@ + operand_text(receiver)
            + " ! "@ + failure.text(),
    }
}

fn render_check(check: &RuntimeCheck) -> (result: String)
    ensures
        result@ == check_text(check),
{
    match check {
        RuntimeCheck::IntegerOverflow { operation, left, right, failure } => {
            let mut text = "integer-".to_owned();
            text.append(integer_operation_name(*operation));
            text.append(" ");
            text.append(render_operand(left).as_str());
            text.append(", ");
            text.append(render_operand(right).as_str());
            text.append(" ! ");
            text.append(failure.to_string().as_str());
            text
        },
        RuntimeCheck::IntegerNegation { operand: value, failure } => {
            let mut text = "integer-negation ".to_owned();
            text.append(render_operand(value).as_str());
            text.append(" ! ");
            text.append(failure.to_string().as_str());
            text
        },
        RuntimeCheck::Division { left, right, failure } => {
            let mut text = "division ".to_owned();
            text.append(render_operand(left).as_str());
            text.append(", ");
            text.append(render_operand(right).as_str());
            text.append(" ! ");
            text.append(failure.to_string().as_str());
            text
        },
        RuntimeCheck::Remainder { left, right, failure } => {
            let mut text = "remainder ".to_owned();
            text.append(render_operand(left).as_str());
            text.append(", ");
            text.append(render_operand(right).as_str());
            text.append(" ! ");
            text.append(failure.to_string().as_str());
            text
        },
        RuntimeCheck::ShiftRange { amount, failure } => {
            let mut text = "shift-range ".to_owned();
            text.append(render_operand(amount).as_str());
            text.append(" ! ");
            text.append(failure.to_string().as_str());
            text
        },
        RuntimeCheck::FiniteFloat { operand: value, failure } => {
            let mut text = "finite-float ".to_owned();
            text.append(render_operand(value).as_str());
            text.append(" ! ");
            text.append(failure.to_string().as_str());
            text
        },
        RuntimeCheck::NumericConversion { operand: value, conversion, failure } => {
            let mut text = "numeric-".to_owned();
            text.append(conversion_name(*conversion));
            text.append(" ");
            text.append(render_operand(value).as_str());
            text.append(" ! ");
            text.append(failure.to_string().as_str());
            text
        },
        RuntimeCheck::IterationUnlocked { receiver, failure } => {
            let mut text = "iteration-unlocked ".to_owned();
            text.append(render_operand(receiver).as_str());
            text.append(" ! ");
            text.append(failure.to_string().as_str());
            text
        },
    }
}

/// Where a failure is attributed to, if anywhere.
pub open spec fn attribution_text(failure: &Option<crate::ir::FailureSiteId>) -> Seq<char> {
    match failure {
        Some(site) => " ! "@ + site.text(),
        None => seq![],
    }
}

fn render_attribution(failure: &Option<crate::ir::FailureSiteId>) -> (result: String)
    ensures
        result@ == attribution_text(failure),
{
    match failure {
        Some(site) => {
            let mut text = " ! ".to_owned();
            text.append(site.to_string().as_str());
            text
        },
        None => String::new(),
    }
}

/// An operation.
pub open spec fn operation_text(operation: &OperationKind) -> Seq<char> {
    match operation {
        OperationKind::Copy { destination, operand: value } => destination.text() + " = copy "@ + operand_text(value),
        OperationKind::Unary { destination, operator, operand: value } => destination.text() + " = "@
            + unary_text(*operator) + " "@ + operand_text(value),
        OperationKind::Binary { destination, operator, left, right } => destination.text() + " = "@
            + binary_text(*operator) + " "@ + operand_text(left) + ", "@ + operand_text(right),
        OperationKind::Convert { destination, conversion, operand: value } => destination.text() + " = "@
            + conversion_text(*conversion) + " "@ + operand_text(value),
        OperationKind::Aggregate { destination, aggregate: value } => destination.text() + " = "@
            + aggregate_text(value),
        OperationKind::UnionInject { destination, union_type, alternative, payload } => destination.text()
            + " = inject "@ + union_type.text() + "."@ + alternative.text() + " "@ + operand_text(payload),
        OperationKind::UnionTest { destination, union, alternative } => destination.text() + " = union-test "@
            + alternative.text() + " "@ + operand_text(union),
        OperationKind::UnionPayload { destination, union, alternative } => destination.text() + " = payload "@
            + alternative.text() + " "@ + operand_text(union),
        OperationKind::StringIndex { destination, string, index, failure } => destination.text() + " = string-index "@
            + operand_text(string) + ", "@ + operand_text(index) + " ! "@ + failure.text(),
        OperationKind::Assign { destination, value } => "assign "@ + place_text(destination) + " = "@
            + operand_text(value),
        OperationKind::Call { destination, function, arguments } => destination.text() + " = call "@ + function.text()
            + "("@ + operands_text(arguments@, arguments@.len()) + ")"@,
        OperationKind::Intrinsic { destination, intrinsic, arguments, failure } => destination.text() + " = intrinsic "@
            + intrinsic_text(*intrinsic) + "("@ + operands_text(arguments@, arguments@.len()) + ") ! "@
            + failure.text(),
        OperationKind::Builtin { destination, method, receiver, arguments, failure } => destination.text()
            + " = builtin "@ + builtin_text(*method) + " "@ + operand_text(receiver) + "("@
            + operands_text(arguments@, arguments@.len()) + ")"@ + attribution_text(failure),
        OperationKind::BeginIteration { iterable } => "begin-iteration "@ + operand_text(iterable),
        OperationKind::EndIteration { iterable } => "end-iteration "@ + operand_text(iterable),
        OperationKind::IterationValue { destination, iterable, index } => destination.text() + " = iteration-value "@
            + operand_text(iterable) + ", "@ + operand_text(index),
        OperationKind::Check(value) => "check "@ + check_text(value),
    }
}

fn render_operation(operation: &OperationKind) -> (result: String)
    ensures
        result@ == operation_text(operation),
{
    match operation {
        OperationKind::Copy { destination, operand: value } => {
            let mut text = destination.to_string();
            text.append(" = copy ");
            text.append(render_operand(value).as_str());
            text
        },
        OperationKind::Unary { destination, operator, operand: value } => {
            let mut text = destination.to_string();
            text.append(" = ");
            text.append(unary_name(*operator));
            text.append(" ");
            text.append(render_operand(value).as_str());
            text
        },
        OperationKind::Binary { destination, operator, left, right } => {
            let mut text = destination.to_string();
            text.append(" = ");
            text.append(binary_name(*operator));
            text.append(" ");
            text.append(render_operand(left).as_str());
            text.append(", ");
            text.append(render_operand(right).as_str());
            text
        },
        OperationKind::Convert { destination, conversion, operand: value } => {
            let mut text = destination.to_string();
            text.append(" = ");
            text.append(conversion_name(*conversion));
            text.append(" ");
            text.append(render_operand(value).as_str());
            text
        },
        OperationKind::Aggregate { destination, aggregate: value } => {
            let mut text = destination.to_string();
            text.append(" = ");
            text.append(render_aggregate(value).as_str());
            text
        },
        OperationKind::UnionInject { destination, union_type, alternative, payload } => {
            let mut text = destination.to_string();
            text.append(" = inject ");
            text.append(union_type.to_string().as_str());
            text.append(".");
            text.append(alternative.to_string().as_str());
            text.append(" ");
            text.append(render_operand(payload).as_str());
            text
        },
        OperationKind::UnionTest { destination, union, alternative } => {
            let mut text = destination.to_string();
            text.append(" = union-test ");
            text.append(alternative.to_string().as_str());
            text.append(" ");
            text.append(render_operand(union).as_str());
            text
        },
        OperationKind::UnionPayload { destination, union, alternative } => {
            let mut text = destination.to_string();
            text.append(" = payload ");
            text.append(alternative.to_string().as_str());
            text.append(" ");
            text.append(render_operand(union).as_str());
            text
        },
        OperationKind::StringIndex { destination, string, index, failure } => {
            let mut text = destination.to_string();
            text.append(" = string-index ");
            text.append(render_operand(string).as_str());
            text.append(", ");
            text.append(render_operand(index).as_str());
            text.append(" ! ");
            text.append(failure.to_string().as_str());
            text
        },
        OperationKind::Assign { destination, value } => {
            let mut text = "assign ".to_owned();
            text.append(render_place(destination).as_str());
            text.append(" = ");
            text.append(render_operand(value).as_str());
            text
        },
        OperationKind::Call { destination, function, arguments } => {
            let mut text = destination.to_string();
            text.append(" = call ");
            text.append(function.to_string().as_str());
            text.append("(");
            text.append(render_operands(arguments).as_str());
            text.append(")");
            text
        },
        OperationKind::Intrinsic { destination, intrinsic, arguments, failure } => {
            let mut text = destination.to_string();
            text.append(" = intrinsic ");
            text.append(intrinsic_name(*intrinsic));
            text.append("(");
            text.append(render_operands(arguments).as_str());
            text.append(") ! ");
            text.append(failure.to_string().as_str());
            text
        },
        OperationKind::Builtin { destination, method, receiver, arguments, failure } => {
            let mut text = destination.to_string();
            text.append(" = builtin ");
            text.append(builtin_name(*method));
            text.append(" ");
            text.append(render_operand(receiver).as_str());
            text.append("(");
            text.append(render_operands(arguments).as_str());
            text.append(")");
            text.append(render_attribution(failure).as_str());
            text
        },
        OperationKind::BeginIteration { iterable } => {
            let mut text = "begin-iteration ".to_owned();
            text.append(render_operand(iterable).as_str());
            text
        },
        OperationKind::EndIteration { iterable } => {
            let mut text = "end-iteration ".to_owned();
            text.append(render_operand(iterable).as_str());
            text
        },
        OperationKind::IterationValue { destination, iterable, index } => {
            let mut text = destination.to_string();
            text.append(" = iteration-value ");
            text.append(render_operand(iterable).as_str());
            text.append(", ");
            text.append(render_operand(index).as_str());
            text
        },
        OperationKind::Check(value) => {
            let mut text = "check ".to_owned();
            text.append(render_check(value).as_str());
            text
        },
    }
}

/// A terminator.
pub open spec fn terminator_text(terminator: &TerminatorKind) -> Seq<char> {
    match terminator {
        TerminatorKind::Jump(target) => "jump "@ + target.text(),
        TerminatorKind::Branch { condition, then_block, else_block } => "branch "@ + operand_text(condition) + " -> "@
            + then_block.text() + ", "@ + else_block.text(),
        TerminatorKind::Switch { union, targets: items } => "switch "@ + operand_text(union) + " -> ["@
            + targets_text(items@, items@.len()) + "]"@,
        TerminatorKind::Return(value) => "return "@ + operand_text(value),
        TerminatorKind::Panic { message, failure } => "panic "@ + operand_text(message) + " ! "@ + failure.text(),
        TerminatorKind::ErrorPanic { payload, failure } => "error-panic "@ + operand_text(payload) + " ! "@
            + failure.text(),
        TerminatorKind::Unreachable => "unreachable"@,
    }
}

fn render_terminator(terminator: &TerminatorKind) -> (result: String)
    ensures
        result@ == terminator_text(terminator),
{
    match terminator {
        TerminatorKind::Jump(target) => {
            let mut text = "jump ".to_owned();
            text.append(target.to_string().as_str());
            text
        },
        TerminatorKind::Branch { condition, then_block, else_block } => {
            let mut text = "branch ".to_owned();
            text.append(render_operand(condition).as_str());
            text.append(" -> ");
            text.append(then_block.to_string().as_str());
            text.append(", ");
            text.append(else_block.to_string().as_str());
            text
        },
        TerminatorKind::Switch { union, targets: items } => {
            let mut text = "switch ".to_owned();
            text.append(render_operand(union).as_str());
            text.append(" -> [");
            text.append(render_targets(items).as_str());
            text.append("]");
            text
        },
        TerminatorKind::Return(value) => {
            let mut text = "return ".to_owned();
            text.append(render_operand(value).as_str());
            text
        },
        TerminatorKind::Panic { message, failure } => {
            let mut text = "panic ".to_owned();
            text.append(render_operand(message).as_str());
            text.append(" ! ");
            text.append(failure.to_string().as_str());
            text
        },
        TerminatorKind::ErrorPanic { payload, failure } => {
            let mut text = "error-panic ".to_owned();
            text.append(render_operand(payload).as_str());
            text.append(" ! ");
            text.append(failure.to_string().as_str());
            text
        },
        TerminatorKind::Unreachable => {
            let text = "unreachable".to_owned();
            text
        },
    }
}

/// The line on the source.
pub open spec fn source_line_text(source: &SourceMetadata) -> Seq<char> {
    "source "@ + quoted_text(&source.filename) + " bytes "@ + decimal(source.byte_len as nat) + "\n"@
}

fn render_source_line(source: &SourceMetadata) -> (result: String)
    ensures
        result@ == source_line_text(source),
{
    let mut text = "source ".to_owned();
    text.append(render_quoted(&source.filename).as_str());
    text.append(" bytes ");
    push_decimal(&mut text, source.byte_len);
    text.append("\n");
    text
}

/// The line on a location.
pub open spec fn location_line_text(span: &ByteSpan, index: usize) -> Seq<char> {
    "  loc"@ + decimal(index as nat) + " = "@ + decimal(span.start as nat) + ".."@ + decimal(span.end as nat) + "\n"@
}

fn render_location_line(span: &ByteSpan, index: usize) -> (result: String)
    ensures
        result@ == location_line_text(span, index),
{
    let mut text = "  loc".to_owned();
    push_decimal(&mut text, index);
    text.append(" = ");
    push_decimal(&mut text, span.start);
    text.append("..");
    push_decimal(&mut text, span.end);
    text.append("\n");
    text
}

/// The lines on the first `count` locations.
pub open spec fn location_lines_text(items: Seq<ByteSpan>, count: nat) -> Seq<char>
    decreases count,
{
    if count == 0 {
        seq![]
    } else {
        location_lines_text(items, (count - 1) as nat) + location_line_text(&items[count - 1], (count - 1) as usize)
    }
}

fn render_location_lines(items: &Vec<ByteSpan>) -> (result: String)
    ensures
        result@ == location_lines_text(items@, items@.len()),
{
    let mut text = String::new();
    let mut index: usize = 0;
    while index < items.len()
        invariant
            index <= items@.len(),
            text@ == location_lines_text(items@, index as nat),
        decreases items@.len() - index,
    {
        text.append(render_location_line(&items[index], index).as_str());
        index = index + 1;
    }
    text
}

/// The line on a failure site.
pub open spec fn failure_line_text(site: &FailureSite, index: usize) -> Seq<char> {
    "  fail"@ + decimal(index as nat) + " = "@ + site.location.text() + " "@ + site.function.text() + " "@
        + failure_operation_text(site.operation) + " at "@ + decimal(site.line as nat) + ":"@
        + decimal(site.column as nat) + "\n"@
}

fn render_failure_line(site: &FailureSite, index: usize) -> (result: String)
    ensures
        result@ == failure_line_text(site, index),
{
    let mut text = "  fail".to_owned();
    push_decimal(&mut text, index);
    text.append(" = ");
    text.append(site.location.to_string().as_str());
    text.append(" ");
    text.append(site.function.to_string().as_str());
    text.append(" ");
    text.append(failure_operation_name(site.operation));
    text.append(" at ");
    push_decimal(&mut text, site.line);
    text.append(":");
    push_decimal(&mut text, site.column);
    text.append("\n");
    text
}

/// The lines on the first `count` failure sites.
pub open spec fn failure_lines_text(items: Seq<FailureSite>, count: nat) -> Seq<char>
    decreases count,
{
    if count == 0 {
        seq![]
    } else {
        failure_lines_text(items, (count - 1) as nat) + failure_line_text(&items[count - 1], (count - 1) as usize)
    }
}

fn render_failure_lines(items: &Vec<FailureSite>) -> (result: String)
    ensures
        result@ == failure_lines_text(items@, items@.len()),
{
    let mut text = String::new();
    let mut index: usize = 0;
    while index < items.len()
        invariant
            index <= items@.len(),
            text@ == failure_lines_text(items@, index as nat),
        decreases items@.len() - index,
    {
        text.append(render_failure_line(&items[index], index).as_str());
        index = index + 1;
    }
    text
}

/// The line on a type.
pub open spec fn type_line_text(ty: &Type, index: usize) -> Seq<char> {
    "type ty"@ + decimal(index as nat) + " = "@ + type_form_text(ty) + "\n"@
}

fn render_type_line(ty: &Type, index: usize) -> (result: String)
    ensures
        result@ == type_line_text(ty, index),
{
    let mut text = "type ty".to_owned();
    push_decimal(&mut text, index);
    text.append(" = ");
    text.append(render_type_form(ty).as_str());
    text.append("\n");
    text
}

/// The lines on the first `count` types.
pub open spec fn type_lines_text(items: Seq<Type>, count: nat) -> Seq<char>
    decreases count,
{
    if count == 0 {
        seq![]
    } else {
        type_lines_text(items, (count - 1) as nat) + type_line_text(&items[count - 1], (count - 1) as usize)
    }
}

fn render_type_lines(items: &Vec<Type>) -> (result: String)
    ensures
        result@ == type_lines_text(items@, items@.len()),
{
    let mut text = String::new();
    let mut index: usize = 0;
    while index < items.len()
        invariant
            index <= items@.len(),
            text@ == type_lines_text(items@, index as nat),
        decreases items@.len() - index,
    {
        text.append(render_type_line(&items[index], index).as_str());
        index = index + 1;
    }
    text
}

/// The line on a field of a struct.
pub open spec fn struct_field_line_text(field: &StructField, index: usize) -> Seq<char> {
    "  field"@ + decimal(index as nat) + " "@ + quoted_text(&field.name) + ": "@ + field.ty.text() + " "@
        + storage_text(field.storage) + "\n"@
}

fn render_struct_field_line(field: &StructField, index: usize) -> (result: String)
    ensures
        result@ == struct_field_line_text(field, index),
{
    let mut text = "  field".to_owned();
    push_decimal(&mut text, index);
    text.append(" ");
    text.append(render_quoted(&field.name).as_str());
    text.append(": ");
    text.append(field.ty.to_string().as_str());
    text.append(" ");
    text.append(storage_name(field.storage));
    text.append("\n");
    text
}

/// The lines on the first `count` fields of a struct.
pub open spec fn struct_field_lines_text(items: Seq<StructField>, count: nat) -> Seq<char>
    decreases count,
{
    if count == 0 {
        seq![]
    } else {
        struct_field_lines_text(items, (count - 1) as nat)
            + struct_field_line_text(&items[count - 1], (count - 1) as usize)
    }
}

fn render_struct_field_lines(items: &Vec<StructField>) -> (result: String)
    ensures
        result@ == struct_field_lines_text(items@, items@.len()),
{
    let mut text = String::new();
    let mut index: usize = 0;
    while index < items.len()
        invariant
            index <= items@.len(),
            text@ == struct_field_lines_text(items@, index as nat),
        decreases items@.len() - index,
    {
        text.append(render_struct_field_line(&items[index], index).as_str());
        index = index + 1;
    }
    text
}

/// The line on a field of a tuple.
pub open spec fn tuple_field_line_text(ty: TypeId, index: usize) -> Seq<char> {
    "  field"@ + decimal(index as nat) + ": "@ + ty.text() + "\n"@
}

fn render_tuple_field_line(ty: TypeId, index: usize) -> (result: String)
    ensures
        result@ == tuple_field_line_text(ty, index),
{
    let mut text = "  field".to_owned();
    push_decimal(&mut text, index);
    text.append(": ");
    text.append(ty.to_string().as_str());
    text.append("\n");
    text
}

/// The lines on the first `count` fields of a tuple.
pub open spec fn tuple_field_lines_text(items: Seq<TypeId>, count: nat) -> Seq<char>
    decreases count,
{
    if count == 0 {
        seq![]
    } else {
        tuple_field_lines_text(items, (count - 1) as nat)
            + tuple_field_line_text(items[count - 1], (count - 1) as usize)
    }
}

fn render_tuple_field_lines(items: &Vec<TypeId>) -> (result: String)
    ensures
        result@ == tuple_field_lines_text(items@, items@.len()),
{
    let mut text = String::new();
    let mut index: usize = 0;
    while index < items.len()
        invariant
            index <= items@.len(),
            text@ == tuple_field_lines_text(items@, index as nat),
        decreases items@.len() - index,
    {
        text.append(render_tuple_field_line(items[index], index).as_str());
        index = index + 1;
    }
    text
}

/// The line on an alternative of a union.
pub open spec fn alternative_line_text(item: &UnionAlternative, index: usize) -> Seq<char> {
    "  alt"@ + decimal(index as nat) + ": "@ + alternative_text(item) + "\n"@
}

fn render_alternative_line(item: &UnionAlternative, index: usize) -> (result: String)
    ensures
        result@ == alternative_line_text(item, index),
{
    let mut text = "  alt".to_owned();
    push_decimal(&mut text, index);
    text.append(": ");
    text.append(render_alternative(item).as_str());
    text.append("\n");
    text
}

/// The lines on the first `count` alternatives of a union.
pub open spec fn alternative_lines_text(items: Seq<UnionAlternative>, count: nat) -> Seq<char>
    decreases count,
{
    if count == 0 {
        seq![]
    } else {
        alternative_lines_text(items, (count - 1) as nat)
            + alternative_line_text(&items[count - 1], (count - 1) as usize)
    }
}

fn render_alternative_lines(items: &Vec<UnionAlternative>) -> (result: String)
    ensures
        result@ == alternative_lines_text(items@, items@.len()),
{
    let mut text = String::new();
    let mut index: usize = 0;
    while index < items.len()
        invariant
            index <= items@.len(),
            text@ == alternative_lines_text(items@, index as nat),
        decreases items@.len() - index,
    {
        text.append(render_alternative_line(&items[index], index).as_str());
        index = index + 1;
    }
    text
}

/// The kind of a definition.
pub open spec fn layout_text(layout: &DefinitionLayout) -> Seq<char> {
    match layout {
        DefinitionLayout::Struct(_) => "struct"@,
        DefinitionLayout::Tuple(_) => "tuple"@,
        DefinitionLayout::Union(_) => "union"@,
    }
}

fn layout_name(layout: &DefinitionLayout) -> (result: &'static str)
    ensures
        result@ == layout_text(layout),
{
    match layout {
        DefinitionLayout::Struct(_) => "struct",
        DefinitionLayout::Tuple(_) => "tuple",
        DefinitionLayout::Union(_) => "union",
    }
}

/// The lines on what a definition holds.
pub open spec fn members_text(layout: &DefinitionLayout) -> Seq<char> {
    match layout {
        DefinitionLayout::Struct(fields) => struct_field_lines_text(fields@, fields@.len()),
        DefinitionLayout::Tuple(fields) => tuple_field_lines_text(fields@, fields@.len()),
        DefinitionLayout::Union(items) => alternative_lines_text(items@, items@.len()),
    }
}

fn render_members(layout: &DefinitionLayout) -> (result: String)
    ensures
        result@ == members_text(layout),
{
    match layout {
        DefinitionLayout::Struct(fields) => render_struct_field_lines(fields),
        DefinitionLayout::Tuple(fields) => render_tuple_field_lines(fields),
        DefinitionLayout::Union(items) => render_alternative_lines(items),
    }
}

/// The lines on a definition.
pub open spec fn definition_lines_text(definition: &NominalDefinition, index: usize) -> Seq<char> {
    layout_text(&definition.layout) + " def"@ + decimal(index as nat) + " "@ + quoted_text(&definition.name) + " {\n"@
        + members_text(&definition.layout) + "}\n"@
}

fn render_definition_lines(definition: &NominalDefinition, index: usize) -> (result: String)
    ensures
        result@ == definition_lines_text(definition, index),
{
    let mut text = layout_name(&definition.layout).to_owned();
    text.append(" def");
    push_decimal(&mut text, index);
    text.append(" ");
    text.append(render_quoted(&definition.name).as_str());
    text.append(" {\n");
    text.append(render_members(&definition.layout).as_str());
    text.append("}\n");
    text
}

/// The lines on the first `count` definitions.
pub open spec fn definitions_text(items: Seq<NominalDefinition>, count: nat) -> Seq<char>
    decreases count,
{
    if count == 0 {
        seq![]
    } else {
        definitions_text(items, (count - 1) as nat) + definition_lines_text(&items[count - 1], (count - 1) as usize)
    }
}

fn render_definitions(items: &Vec<NominalDefinition>) -> (result: String)
    ensures
        result@ == definitions_text(items@, items@.len()),
{
    let mut text = String::new();
    let mut index: usize = 0;
    while index < items.len()
        invariant
            index <= items@.len(),
            text@ == definitions_text(items@, index as nat),
        decreases items@.len() - index,
    {
        text.append(render_definition_lines(&items[index], index).as_str());
        index = index + 1;
    }
    text
}

/// An entry, where it is set.
pub open spec fn function_entry_text(entry: Option<FunctionId>) -> Seq<char> {
    match entry {
        Some(id) => id.text(),
        None => "<unset>"@,
    }
}

fn render_function_entry(entry: Option<FunctionId>) -> (result: String)
    ensures
        result@ == function_entry_text(entry),
{
    match entry {
        Some(id) => id.to_string(),
        None => "<unset>".to_owned(),
    }
}

/// An entry, where it is set.
pub open spec fn block_entry_text(entry: Option<BlockId>) -> Seq<char> {
    match entry {
        Some(id) => id.text(),
        None => "<unset>"@,
    }
}

fn render_block_entry(entry: Option<BlockId>) -> (result: String)
    ensures
        result@ == block_entry_text(entry),
{
    match entry {
        Some(id) => id.to_string(),
        None => "<unset>".to_owned(),
    }
}

/// The name of a local in the source, if it has one.
pub open spec fn source_name_text(name: &Option<String>) -> Seq<char> {
    match name {
        Some(name) => quoted_text(name),
        None => "-"@,
    }
}

fn render_source_name(name: &Option<String>) -> (result: String)
    ensures
        result@ == source_name_text(name),
{
    match name {
        Some(name) => render_quoted(name),
        None => "-".to_owned(),
    }
}

/// The line on a local.
pub open spec fn local_line_text(local: &Local, index: usize) -> Seq<char> {
    "  _"@ + decimal(index as nat) + ": "@ + local.ty.text() + " "@ + origin_text(local.origin) + " "@
        + source_name_text(&local.source_name) + "\n"@
}

fn render_local_line(local: &Local, index: usize) -> (result: String)
    ensures
        result@ == local_line_text(local, index),
{
    let mut text = "  _".to_owned();
    push_decimal(&mut text, index);
    text.append(": ");
    text.append(local.ty.to_string().as_str());
    text.append(" ");
    text.append(origin_name(local.origin));
    text.append(" ");
    text.append(render_source_name(&local.source_name).as_str());
    text.append("\n");
    text
}

/// The lines on the first `count` locals.
pub open spec fn local_lines_text(items: Seq<Local>, count: nat) -> Seq<char>
    decreases count,
{
    if count == 0 {
        seq![]
    } else {
        local_lines_text(items, (count - 1) as nat) + local_line_text(&items[count - 1], (count - 1) as usize)
    }
}

fn render_local_lines(items: &Vec<Local>) -> (result: String)
    ensures
        result@ == local_lines_text(items@, items@.len()),
{
    let mut text = String::new();
    let mut index: usize = 0;
    while index < items.len()
        invariant
            index <= items@.len(),
            text@ == local_lines_text(items@, index as nat),
        decreases items@.len() - index,
    {
        text.append(render_local_line(&items[index], index).as_str());
        index = index + 1;
    }
    text
}

/// The line on an operation.
pub open spec fn operation_line_text(item: &Operation) -> Seq<char> {
    "    "@ + operation_text(&item.kind) + " @ "@ + item.location.text() + "\n"@
}

fn render_operation_line(item: &Operation) -> (result: String)
    ensures
        result@ == operation_line_text(item),
{
    let mut text = "    ".to_owned();
    text.append(render_operation(&item.kind).as_str());
    text.append(" @ ");
    text.append(item.location.to_string().as_str());
    text.append("\n");
    text
}

/// The lines on the first `count` operations.
pub open spec fn operation_lines_text(items: Seq<Operation>, count: nat) -> Seq<char>
    decreases count,
{
    if count == 0 {
        seq![]
    } else {
        operation_lines_text(items, (count - 1) as nat) + operation_line_text(&items[count - 1])
    }
}

fn render_operation_lines(items: &Vec<Operation>) -> (result: String)
    ensures
        result@ == operation_lines_text(items@, items@.len()),
{
    let mut text = String::new();
    let mut index: usize = 0;
    while index < items.len()
        invariant
            index <= items@.len(),
            text@ == operation_lines_text(items@, index as nat),
        decreases items@.len() - index,
    {
        text.append(render_operation_line(&items[index]).as_str());
        index = index + 1;
    }
    text
}

/// The line on a terminator.
pub open spec fn terminator_line_text(item: &Terminator) -> Seq<char> {
    "    "@ + terminator_text(&item.kind) + " @ "@ + item.location.text() + "\n"@
}

fn render_terminator_line(item: &Terminator) -> (result: String)
    ensures
        result@ == terminator_line_text(item),
{
    let mut text = "    ".to_owned();
    text.append(render_terminator(&item.kind).as_str());
    text.append(" @ ");
    text.append(item.location.to_string().as_str());
    text.append("\n");
    text
}

/// The last line of a block.
pub open spec fn ending_text(ending: &Option<Terminator>) -> Seq<char> {
    match ending {
        Some(item) => terminator_line_text(item),
        None => "    <unterminated>\n"@,
    }
}

fn render_ending(ending: &Option<Terminator>) -> (result: String)
    ensures
        result@ == ending_text(ending),
{
    match ending {
        Some(item) => render_terminator_line(item),
        None => "    <unterminated>\n".to_owned(),
    }
}

/// The lines on a block.
pub open spec fn block_lines_text(block: &BasicBlock, index: usize) -> Seq<char> {
    "  bb"@ + decimal(index as nat) + ":\n"@ + operation_lines_text(block.operations@, block.operations@.len())
        + ending_text(&block.terminator)
}

fn render_block_lines(block: &BasicBlock, index: usize) -> (result: String)
    ensures
        result@ == block_lines_text(block, index),
{
    let mut text = "  bb".to_owned();
    push_decimal(&mut text, index);
    text.append(":\n");
    text.append(render_operation_lines(&block.operations).as_str());
    text.append(render_ending(&block.terminator).as_str());
    text
}

/// The lines on the first `count` blocks.
pub open spec fn blocks_text(items: Seq<BasicBlock>, count: nat) -> Seq<char>
    decreases count,
{
    if count == 0 {
        seq![]
    } else {
        blocks_text(items, (count - 1) as nat) + block_lines_text(&items[count - 1], (count - 1) as usize)
    }
}

fn render_blocks(items: &Vec<BasicBlock>) -> (result: String)
    ensures
        result@ == blocks_text(items@, items@.len()),
{
    let mut text = String::new();
    let mut index: usize = 0;
    while index < items.len()
        invariant
            index <= items@.len(),
            text@ == blocks_text(items@, index as nat),
        decreases items@.len() - index,
    {
        text.append(render_block_lines(&items[index], index).as_str());
        index = index + 1;
    }
    text
}

/// The lines on a function.
pub open spec fn function_lines_text(function: &Function, index: usize) -> Seq<char> {
    "fn fn"@ + decimal(index as nat) + " "@ + quoted_text(&function.name) + "("@
        + parameters_text(function.parameters@, function.parameters@.len()) + ") -> "@ + function.result.text()
        + " entry "@ + block_entry_text(function.entry) + " {\n"@
        + local_lines_text(function.locals@, function.locals@.len())
        + blocks_text(function.blocks@, function.blocks@.len()) + "}\n"@
}

fn render_function_lines(function: &Function, index: usize) -> (result: String)
    ensures
        result@ == function_lines_text(function, index),
{
    let mut text = "fn fn".to_owned();
    push_decimal(&mut text, index);
    text.append(" ");
    text.append(render_quoted(&function.name).as_str());
    text.append("(");
    text.append(render_parameters(&function.parameters).as_str());
    text.append(") -> ");
    text.append(function.result.to_string().as_str());
    text.append(" entry ");
    text.append(render_block_entry(function.entry).as_str());
    text.append(" {\n");
    text.append(render_local_lines(&function.locals).as_str());
    text.append(render_blocks(&function.blocks).as_str());
    text.append("}\n");
    text
}

/// The lines on the first `count` functions.
pub open spec fn functions_text(items: Seq<Function>, count: nat) -> Seq<char>
    decreases count,
{
    if count == 0 {
        seq![]
    } else {
        functions_text(items, (count - 1) as nat) + function_lines_text(&items[count - 1], (count - 1) as usize)
    }
}

fn render_functions(items: &Vec<Function>) -> (result: String)
    ensures
        result@ == functions_text(items@, items@.len()),
{
    let mut text = String::new();
    let mut index: usize = 0;
    while index < items.len()
        invariant
            index <= items@.len(),
            text@ == functions_text(items@, index as nat),
        decreases items@.len() - index,
    {
        text.append(render_function_lines(&items[index], index).as_str());
        index = index + 1;
    }
    text
}

/// A program.
pub open spec fn program_text(program: &Program) -> Seq<char> {
    source_line_text(&program.source) + location_lines_text(program.locations@, program.locations@.len())
        + failure_lines_text(program.failure_sites@, program.failure_sites@.len())
        + type_lines_text(program.types@, program.types@.len())
        + definitions_text(program.definitions@, program.definitions@.len()) + "entry "@
        + function_entry_text(program.entry) + "\n"@ + functions_text(program.functions@, program.functions@.len())
}

fn render_program(program: &Program) -> (result: String)
    ensures
        result@ == program_text(program),
{
    let mut text = render_source_line(&program.source);
    text.append(render_location_lines(&program.locations).as_str());
    text.append(render_failure_lines(&program.failure_sites).as_str());
    text.append(render_type_lines(&program.types).as_str());
    text.append(render_definitions(&program.definitions).as_str());
    text.append("entry ");
    text.append(render_function_entry(program.entry).as_str());
    text.append("\n");
    text.append(render_functions(&program.functions).as_str());
    text
}

impl Program {
    /// The deterministic text form of the program.
    pub fn render(&self) -> (result: String)
        ensures
            result@ == program_text(self),
    {
        render_program(self)
    }
}

} // verus!
