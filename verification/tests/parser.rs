use sao2::ast::{
    ArgumentKind, AssignmentOperator, AssignmentTargetSuffixKind, BinaryOperator, Declaration, Expression,
    ExpressionBodyKind, ExpressionKind, FunctionDeclaration, Member, PrimitiveType, Program, StatementBodyKind,
    StatementKind, Type, TypeKind, TypeMemberKind, UnaryOperator,
};
use sao2::diagnostic::Diagnostics;
use sao2::parser;
use sao2::source::{SourceFile, Span};

fn source(text: &str) -> SourceFile {
    SourceFile::new("test.sao2".to_owned(), text.to_owned())
}

fn parse(source: &SourceFile) -> Result<Program, Diagnostics> {
    parser::parse(source, 0)
}

fn span_text(text: &str, span: Span) -> &str {
    &text[span.start..span.end]
}

fn value_expression(text: &str) -> Expression {
    let program = parse(&source(&format!("fn f() {{ {text} }}"))).unwrap();
    let Declaration::Function(function) = program.declarations.into_iter().next().unwrap()
    else {
        panic!("expected function declaration");
    };
    *function.body.value.unwrap()
}

fn function_declaration(text: &str) -> FunctionDeclaration {
    let program = parse(&source(text)).unwrap();
    let Declaration::Function(function) = program.declarations.into_iter().next().unwrap()
    else {
        panic!("expected function declaration");
    };
    function
}

fn binary_parts(
    expression: &Expression,
    expected: BinaryOperator,
) -> (&Expression, &Expression) {
    let ExpressionKind::Binary {
        left,
        operator,
        right,
        ..
    } = &expression.kind
    else {
        panic!("expected {expected:?}, got {expression:?}");
    };
    assert_eq!(*operator, expected);
    (left, right)
}

#[test]
fn parses_spanned_functions_blocks_calls_and_literals() {
    let text = "fn helper(value str) str { print(value); value }";
    let program = parse(&source(text)).unwrap();
    assert_eq!(program.span, Span::new(0, text.len()));
    let Declaration::Function(function) = &program.declarations[0] else {
        panic!("expected function declaration");
    };
    assert_eq!(function.span, Span::new(0, text.len()));
    assert_eq!(function.name.span, Span::new(3, 9));
    assert_eq!(function.parameters[0].span, Span::new(10, 19));
    assert_eq!(function.body.statements.len(), 1);
    assert!(function.body.value.is_some());
}

#[test]
fn parses_all_entry_point_signature_syntax_without_contextual_validation() {
    for text in [
        "fn main() {}",
        "fn main() int {}",
        "fn main(args [str]) {}",
        "fn main(args [str]) int {}",
    ] {
        assert!(parse(&source(text)).is_ok(), "{text}");
    }
}

#[test]
fn parses_chained_calls_and_nested_blocks() {
    let program = parse(&source("fn f() { { print(make(\"x\")); } }")).unwrap();
    let Declaration::Function(function) = &program.declarations[0] else {
        panic!("expected function declaration");
    };
    assert!(matches!(
        function.body.statements[0].kind,
        StatementKind::Block(_)
    ));
}

#[test]
fn rejects_temporary_top_level_statements() {
    let diagnostics = parse(&source("print(\"old syntax\");")).unwrap_err();
    assert!(
        diagnostics
            .to_string()
            .contains("expected top-level 'type' or 'fn' declaration")
    );
}

#[test]
fn parses_named_unnamed_and_referenced_type_members() {
    let text =
        "type Point(x int, y float, target Target, shared &Target); type Pair(int, [str]);";
    let program = parse(&source(text)).unwrap();
    assert_eq!(program.declarations.len(), 2);

    let Declaration::Type(point) = &program.declarations[0] else {
        panic!("expected type declaration");
    };
    assert_eq!(
        span_text(text, point.span),
        "type Point(x int, y float, target Target, shared &Target);"
    );
    assert_eq!(span_text(text, point.name.span), "Point");
    assert_eq!(point.members.len(), 4);
    let TypeMemberKind::Named {
        name,
        referenced,
        ty,
    } = &point.members[3].kind
    else {
        panic!("expected named member");
    };
    assert_eq!(span_text(text, name.span), "shared");
    assert!(*referenced);
    assert_eq!(span_text(text, ty.span), "Target");
    assert_eq!(span_text(text, point.members[3].span), "shared &Target");

    let Declaration::Type(pair) = &program.declarations[1] else {
        panic!("expected type declaration");
    };
    assert!(
        pair.members
            .iter()
            .all(|member| matches!(member.kind, TypeMemberKind::Unnamed(_)))
    );
}

#[test]
fn parses_every_type_atom_and_union_in_function_signatures() {
    let text = "fn types(a int, b float, c str, d bool, e char, f Name, g [Name], h {str: [int]}, i (A | B), j Ok(int) | Error(str)) (A | B) | C {}";
    let program = parse(&source(text)).unwrap();
    let Declaration::Function(function) = &program.declarations[0] else {
        panic!("expected function declaration");
    };

    assert_eq!(function.parameters.len(), 10);
    assert!(matches!(
        function.parameters[0].ty.kind,
        TypeKind::Primitive(PrimitiveType::Int)
    ));
    assert!(matches!(function.parameters[5].ty.kind, TypeKind::Named(_)));
    assert!(matches!(function.parameters[6].ty.kind, TypeKind::List(_)));
    assert!(matches!(
        function.parameters[7].ty.kind,
        TypeKind::Mapping { .. }
    ));
    assert!(matches!(
        function.parameters[8].ty.kind,
        TypeKind::Parenthesized(_)
    ));
    let TypeKind::Union(tagged) = &function.parameters[9].ty.kind else {
        panic!("expected tagged union");
    };
    assert_eq!(tagged.len(), 2);
    assert!(
        tagged
            .iter()
            .all(|alternative| matches!(alternative.kind, TypeKind::Tagged { .. }))
    );
    assert!(matches!(
        function.return_type.as_ref().unwrap().kind,
        TypeKind::Union(_)
    ));
}

#[test]
fn preserves_parenthesized_nested_unions() {
    let text = "type Nested((int | float) | str);";
    let program = parse(&source(text)).unwrap();
    let Declaration::Type(declaration) = &program.declarations[0] else {
        panic!("expected type declaration");
    };
    let TypeMemberKind::Unnamed(ty) = &declaration.members[0].kind else {
        panic!("expected unnamed member");
    };
    let TypeKind::Union(outer) = &ty.kind else {
        panic!("expected outer union");
    };
    assert_eq!(outer.len(), 2);
    let TypeKind::Parenthesized(inner) = &outer[0].kind else {
        panic!("expected preserved parentheses");
    };
    assert!(matches!(inner.kind, TypeKind::Union(ref types) if types.len() == 2));
    assert_eq!(span_text(text, outer[0].span), "(int | float)");
    assert_eq!(span_text(text, inner.span), "int | float");
}

#[test]
fn distinguishes_map_return_types_from_function_bodies() {
    let map_source = source("fn lookup() {str: [int]} {}");
    let program = parse(&map_source).unwrap();
    let Declaration::Function(function) = &program.declarations[0] else {
        panic!("expected function declaration");
    };
    assert!(matches!(
        function.return_type.as_ref().unwrap().kind,
        TypeKind::Mapping { .. }
    ));

    let body_source = source("fn no_return() {}");
    let program = parse(&body_source).unwrap();
    let Declaration::Function(function) = &program.declarations[0] else {
        panic!("expected function declaration");
    };
    assert!(function.return_type.is_none());
}

#[test]
fn defers_contextual_type_member_validation() {
    for text in [
        "type Mixed(a int, float);",
        "type ReferencedPrimitive(value &int);",
        "type SingleAlternative(int);",
        "type TaggedOutsideUnion(Only(int));",
    ] {
        assert!(parse(&source(text)).is_ok(), "{text}");
    }
}

#[test]
fn parses_every_primitive_expression_literal() {
    for (text, expected) in [
        ("42", ExpressionKind::Integer),
        ("1.5", ExpressionKind::Float),
        ("\"value\"", ExpressionKind::String(b"value".to_vec())),
        ("'x'", ExpressionKind::Character(b'x')),
        ("true", ExpressionKind::Boolean(true)),
        ("false", ExpressionKind::Boolean(false)),
    ] {
        assert_eq!(value_expression(text).kind, expected, "{text}");
    }
}

#[test]
fn applies_all_binary_precedence_levels() {
    let expression = value_expression("a || b && c | d ^ e & f == g < h << i + j * k");
    let (_, right) = binary_parts(&expression, BinaryOperator::LogicalOr);
    let (_, right) = binary_parts(right, BinaryOperator::LogicalAnd);
    let (_, right) = binary_parts(right, BinaryOperator::BitwiseOr);
    let (_, right) = binary_parts(right, BinaryOperator::BitwiseXor);
    let (_, right) = binary_parts(right, BinaryOperator::BitwiseAnd);
    let (_, right) = binary_parts(right, BinaryOperator::Equal);
    let (_, right) = binary_parts(right, BinaryOperator::Less);
    let (_, right) = binary_parts(right, BinaryOperator::ShiftLeft);
    let (_, right) = binary_parts(right, BinaryOperator::Add);
    binary_parts(right, BinaryOperator::Multiply);
}

#[test]
fn parses_every_binary_operator_and_left_associativity() {
    for (source, expected) in [
        ("a || b", BinaryOperator::LogicalOr),
        ("a && b", BinaryOperator::LogicalAnd),
        ("a | b", BinaryOperator::BitwiseOr),
        ("a ^ b", BinaryOperator::BitwiseXor),
        ("a & b", BinaryOperator::BitwiseAnd),
        ("a == b", BinaryOperator::Equal),
        ("a != b", BinaryOperator::NotEqual),
        ("a < b", BinaryOperator::Less),
        ("a <= b", BinaryOperator::LessEqual),
        ("a > b", BinaryOperator::Greater),
        ("a >= b", BinaryOperator::GreaterEqual),
        ("a in b", BinaryOperator::In),
        ("a << b", BinaryOperator::ShiftLeft),
        ("a >> b", BinaryOperator::ShiftRight),
        ("a + b", BinaryOperator::Add),
        ("a - b", BinaryOperator::Subtract),
        ("a * b", BinaryOperator::Multiply),
        ("a / b", BinaryOperator::Divide),
        ("a % b", BinaryOperator::Remainder),
    ] {
        binary_parts(&value_expression(source), expected);
    }

    let expression = value_expression("a - b - c");
    let (left, _) = binary_parts(&expression, BinaryOperator::Subtract);
    binary_parts(left, BinaryOperator::Subtract);
}

#[test]
fn parses_recursive_unary_operators() {
    let expression = value_expression("!~-+value");
    let mut current = &expression;
    for expected in [
        UnaryOperator::LogicalNot,
        UnaryOperator::BitwiseNot,
        UnaryOperator::Minus,
        UnaryOperator::Plus,
    ] {
        let ExpressionKind::Unary {
            operator, operand, ..
        } = &current.kind
        else {
            panic!("expected unary expression");
        };
        assert_eq!(*operator, expected);
        current = operand;
    }
    assert!(matches!(current.kind, ExpressionKind::Identifier(_)));
}

#[test]
fn parses_chained_postfix_operations_and_named_arguments() {
    let expression = value_expression("make(a, named = b)(c)[i].field.0??");
    let ExpressionKind::Try { value, .. } = &expression.kind else {
        panic!("expected postfix try");
    };
    let ExpressionKind::Try { value, .. } = &value.kind else {
        panic!("expected second postfix try");
    };
    let ExpressionKind::Member { value, member } = &value.kind else {
        panic!("expected tuple member");
    };
    assert!(matches!(member, Member::TupleIndex(_)));
    let ExpressionKind::Member { value, member } = &value.kind else {
        panic!("expected named member");
    };
    assert!(matches!(member, Member::Named(_)));
    let ExpressionKind::Index { value, .. } = &value.kind else {
        panic!("expected index expression");
    };
    let ExpressionKind::Call { callee, arguments } = &value.kind else {
        panic!("expected chained call");
    };
    assert_eq!(arguments.len(), 1);
    let ExpressionKind::Call { arguments, .. } = &callee.kind else {
        panic!("expected initial call");
    };
    assert_eq!(arguments.len(), 2);
    assert!(matches!(arguments[0].kind, ArgumentKind::Positional(_)));
    assert!(matches!(arguments[1].kind, ArgumentKind::Named { .. }));
}

#[test]
fn parses_collection_literals_and_typed_empty_collections() {
    let expression = value_expression("[1, true, 'x']");
    assert!(matches!(expression.kind, ExpressionKind::List(ref values) if values.len() == 3));

    let expression = value_expression("({a: 1, b: 2})");
    let ExpressionKind::Parenthesized(inner) = expression.kind else {
        panic!("expected parentheses");
    };
    assert!(matches!(inner.kind, ExpressionKind::Mapping(ref entries) if entries.len() == 2));

    let expression = value_expression("[] : [int]");
    assert!(matches!(
        expression.kind,
        ExpressionKind::TypedEmptyList(Type {
            kind: TypeKind::List(_),
            ..
        })
    ));

    let expression = value_expression("({} : {str: int})");
    let ExpressionKind::Parenthesized(inner) = expression.kind else {
        panic!("expected parentheses");
    };
    assert!(matches!(
        inner.kind,
        ExpressionKind::TypedEmptyMap(Type {
            kind: TypeKind::Mapping { .. },
            ..
        })
    ));
}

#[test]
fn distinguishes_map_and_block_expressions_by_colon_structure() {
    let map = value_expression("({key: value})");
    let ExpressionKind::Parenthesized(map) = map.kind else {
        panic!("expected parentheses");
    };
    assert!(matches!(map.kind, ExpressionKind::Mapping(_)));

    let block = value_expression("({value})");
    let ExpressionKind::Parenthesized(block) = block.kind else {
        panic!("expected parentheses");
    };
    let ExpressionKind::Block(block) = block.kind else {
        panic!("expected block expression");
    };
    assert!(block.value.is_some());

    let empty_map = value_expression("({})");
    let ExpressionKind::Parenthesized(empty_map) = empty_map.kind else {
        panic!("expected parentheses");
    };
    assert!(matches!(empty_map.kind, ExpressionKind::Mapping(ref entries) if entries.is_empty()));
}

#[test]
fn parses_if_expressions_with_colon_and_block_bodies() {
    let expression = value_expression("(if first: one else if second { two } else: three)");
    let ExpressionKind::Parenthesized(expression) = expression.kind else {
        panic!("expected parentheses");
    };
    let ExpressionKind::If {
        branches,
        else_branch,
    } = expression.kind
    else {
        panic!("expected if expression");
    };
    assert_eq!(branches.len(), 2);
    assert!(matches!(
        branches[0].body.kind,
        ExpressionBodyKind::Expression(_)
    ));
    assert!(matches!(
        branches[1].body.kind,
        ExpressionBodyKind::Block(_)
    ));
    assert!(matches!(
        else_branch.kind,
        ExpressionBodyKind::Expression(_)
    ));
}

#[test]
fn parses_is_with_a_type_and_rejects_assignment_expressions() {
    let expression = value_expression("value is Success(int) | Error(str)");
    let ExpressionKind::Is { ty, .. } = expression.kind else {
        panic!("expected type test");
    };
    assert!(matches!(ty.kind, TypeKind::Union(ref types) if types.len() == 2));

    let diagnostic = parse(&source("fn f() { (value = other) }")).unwrap_err();
    assert!(diagnostic.to_string().contains("expected ')'"));
    let diagnostic = parse(&source("fn f() { value.0x1 }")).unwrap_err();
    assert!(diagnostic.to_string().contains("decimal tuple index"));
}

#[test]
fn parses_local_declarations_and_every_assignment_operator() {
    let function = function_declaration(
        "fn f() { value := initial; var mutable := other; target.field[index].0 += amount; }",
    );
    assert_eq!(function.body.statements.len(), 3);
    assert!(matches!(
        function.body.statements[0].kind,
        StatementKind::Local { mutable: false, .. }
    ));
    assert!(matches!(
        function.body.statements[1].kind,
        StatementKind::Local { mutable: true, .. }
    ));
    let StatementKind::Assignment {
        target, operator, ..
    } = &function.body.statements[2].kind
    else {
        panic!("expected assignment");
    };
    assert_eq!(*operator, AssignmentOperator::Add);
    assert_eq!(target.suffixes.len(), 3);
    assert!(matches!(
        target.suffixes[0].kind,
        AssignmentTargetSuffixKind::Member(Member::Named(_))
    ));
    assert!(matches!(
        target.suffixes[1].kind,
        AssignmentTargetSuffixKind::Index(_)
    ));
    assert!(matches!(
        target.suffixes[2].kind,
        AssignmentTargetSuffixKind::Member(Member::TupleIndex(_))
    ));

    for (symbol, expected) in [
        ("=", AssignmentOperator::Assign),
        ("+=", AssignmentOperator::Add),
        ("-=", AssignmentOperator::Subtract),
        ("*=", AssignmentOperator::Multiply),
        ("/=", AssignmentOperator::Divide),
        ("%=", AssignmentOperator::Remainder),
        ("&=", AssignmentOperator::BitwiseAnd),
        ("|=", AssignmentOperator::BitwiseOr),
        ("^=", AssignmentOperator::BitwiseXor),
        ("<<=", AssignmentOperator::ShiftLeft),
        (">>=", AssignmentOperator::ShiftRight),
    ] {
        let function = function_declaration(&format!("fn f() {{ target {symbol} value; }}"));
        assert!(matches!(
            function.body.statements[0].kind,
            StatementKind::Assignment {
                operator,
                ..
            } if operator == expected
        ));
    }
}

#[test]
fn parses_expression_return_and_loop_control_statements() {
    let function = function_declaration(
        "fn f() { call(); return; return value; break; continue; final_value }",
    );
    assert_eq!(function.body.statements.len(), 5);
    assert!(matches!(
        function.body.statements[0].kind,
        StatementKind::Expression(_)
    ));
    assert!(matches!(
        function.body.statements[1].kind,
        StatementKind::Return(None)
    ));
    assert!(matches!(
        function.body.statements[2].kind,
        StatementKind::Return(Some(_))
    ));
    assert!(matches!(
        function.body.statements[3].kind,
        StatementKind::Break
    ));
    assert!(matches!(
        function.body.statements[4].kind,
        StatementKind::Continue
    ));
    assert!(function.body.value.is_some());
}

#[test]
fn parses_if_statements_and_binds_else_to_the_nearest_if() {
    let function = function_declaration(
        "fn f() { if first { one(); } else if second: two(); else { three(); } if outer: if inner: one(); else: two(); }",
    );
    let StatementKind::If {
        branches,
        else_body,
    } = &function.body.statements[0].kind
    else {
        panic!("expected if statement");
    };
    assert_eq!(branches.len(), 2);
    assert!(matches!(branches[0].body.kind, StatementBodyKind::Block(_)));
    assert!(matches!(
        branches[1].body.kind,
        StatementBodyKind::Statement(_)
    ));
    assert!(matches!(
        else_body.as_ref().unwrap().kind,
        StatementBodyKind::Block(_)
    ));

    let StatementKind::If {
        branches,
        else_body,
    } = &function.body.statements[1].kind
    else {
        panic!("expected outer if statement");
    };
    assert!(else_body.is_none());
    let StatementBodyKind::Statement(inner) = &branches[0].body.kind else {
        panic!("expected colon-form inner statement");
    };
    assert!(matches!(
        inner.kind,
        StatementKind::If {
            else_body: Some(_),
            ..
        }
    ));
}

#[test]
fn parses_while_and_for_with_both_body_forms() {
    let function = function_declaration(
        "fn f() { while condition: continue; for item in items { break; } }",
    );
    let StatementKind::While { body, .. } = &function.body.statements[0].kind else {
        panic!("expected while statement");
    };
    assert!(matches!(body.kind, StatementBodyKind::Statement(_)));
    let StatementKind::For { body, .. } = &function.body.statements[1].kind else {
        panic!("expected for statement");
    };
    assert!(matches!(body.kind, StatementBodyKind::Block(_)));
}

#[test]
fn parses_switch_arms_and_final_else_arm() {
    let function = function_declaration(
        "fn f() { switch value { int: first(); Ok(str) { second(); } else: fallback(); } }",
    );
    let StatementKind::Switch {
        arms, else_body, ..
    } = &function.body.statements[0].kind
    else {
        panic!("expected switch statement");
    };
    assert_eq!(arms.len(), 2);
    assert!(matches!(
        arms[0].label.kind,
        TypeKind::Primitive(PrimitiveType::Int)
    ));
    assert!(matches!(arms[1].label.kind, TypeKind::Tagged { .. }));
    assert!(matches!(arms[0].body.kind, StatementBodyKind::Statement(_)));
    assert!(matches!(arms[1].body.kind, StatementBodyKind::Block(_)));
    assert!(else_body.is_some());
}

#[test]
fn keeps_final_block_values_separate_from_discarded_expressions() {
    let function = function_declaration("fn f() { discarded; value }");
    assert_eq!(function.body.statements.len(), 1);
    assert!(function.body.value.is_some());

    let function = function_declaration("fn f() { value; }");
    assert_eq!(function.body.statements.len(), 1);
    assert!(function.body.value.is_none());

    let function = function_declaration(
        "fn f() { result := { var value := initial; if condition: value = other; value }; }",
    );
    let StatementKind::Local { initializer, .. } = &function.body.statements[0].kind else {
        panic!("expected outer local declaration");
    };
    let ExpressionKind::Block(block) = &initializer.kind else {
        panic!("expected block expression initializer");
    };
    assert_eq!(block.statements.len(), 2);
    assert!(block.value.is_some());
}

#[test]
fn parses_if_expressions_in_expression_context() {
    let function = function_declaration("fn f() { result := if condition: yes else: no; }");
    let StatementKind::Local { initializer, .. } = &function.body.statements[0].kind else {
        panic!("expected local declaration");
    };
    assert!(matches!(initializer.kind, ExpressionKind::If { .. }));
}

#[test]
fn rejects_non_grammar_assignment_targets_and_nonfinal_switch_else() {
    for target in ["call()", "(value)", "value?"] {
        let diagnostic = parse(&source(&format!("fn f() {{ {target} = other; }}")))
            .unwrap_err()
            .to_string();
        assert!(
            diagnostic.contains("assignment target"),
            "{target}: {diagnostic}"
        );
    }

    let diagnostic = parse(&source(
        "fn f() { switch value { else: fallback(); int: unreachable(); } }",
    ))
    .unwrap_err()
    .to_string();
    assert!(diagnostic.contains("else must be the final switch arm"));
}

#[test]
fn parses_the_unit_type_and_numeric_conversions() {
    let function = function_declaration("fn f(value int) () { }");
    assert_eq!(function.return_type.as_ref().unwrap().kind, TypeKind::Unit);
    let converted = value_expression("float(1 + 2)");
    let ExpressionKind::Conversion { destination, operand } = &converted.kind else {
        panic!("expected a conversion, got {converted:?}");
    };
    assert_eq!(*destination, PrimitiveType::Float);
    binary_parts(operand, BinaryOperator::Add);
    let nested = value_expression("int(float(3))");
    assert!(matches!(&nested.kind, ExpressionKind::Conversion { destination: PrimitiveType::Int, .. }));
}

#[test]
fn reports_an_unclosed_conversion() {
    let diagnostics = parse(&source("fn f() { int(1; }")).unwrap_err().to_string();
    assert!(diagnostics.contains("expected ')' after conversion operand"), "{diagnostics}");
}

#[test]
fn declarations_stand_in_source_order_within_the_program() {
    let text = " type A(int);\nfn f() {}\n\nfn g() { 1 } ";
    let program = parse(&source(text)).unwrap();
    assert_eq!(program.span, Span::new(0, text.len()));
    let spans: Vec<Span> = program
        .declarations
        .iter()
        .map(|declaration| match declaration {
            Declaration::Type(declaration) => declaration.span,
            Declaration::Function(declaration) => declaration.span,
        })
        .collect();
    assert_eq!(spans.len(), 3);
    assert_eq!(span_text(text, spans[0]), "type A(int);");
    for pair in spans.windows(2) {
        assert!(pair[0].start < pair[0].end && pair[0].end <= pair[1].start && pair[1].end <= text.len());
    }
    assert!(parse(&source(" // nothing\n")).unwrap().declarations.is_empty());
}

#[test]
fn trees_of_one_text_are_told_apart_by_their_numbers() {
    let text = source("type Point(x int); fn main() { var a := 1; a = a + 2; }");
    let first = parser::parse(&text, 1).unwrap();
    let second = parser::parse(&text, 2).unwrap();
    assert_eq!(first, parser::parse(&text, 1).unwrap());
    assert_ne!(first, second);
    assert_eq!(first.span, Span { start: 0, end: text.text.len(), tree: 1 });
    let Declaration::Function(left) = &first.declarations[1] else { panic!() };
    let Declaration::Function(right) = &second.declarations[1] else { panic!() };
    assert_eq!((left.span.start, left.span.end), (right.span.start, right.span.end));
    for (one, other) in left.body.statements.iter().zip(&right.body.statements) {
        assert_eq!((one.span.tree, other.span.tree), (1, 2));
        assert_ne!(one.span, other.span);
    }
}

#[test]
fn errors_are_at_spans_of_the_text() {
    let error = parser::parse(&source("fn f("), 7).unwrap_err();
    assert_eq!(error.to_string(), parser::parse(&source("fn f("), 0).unwrap_err().to_string());
    assert_eq!(error, parser::parse(&source("fn f("), 0).unwrap_err());
}

#[test]
fn what_is_no_program_has_one_error() {
    assert_eq!(parse(&source("fn f( {} fn g( {}")).unwrap_err().len(), 1);
    assert_eq!(parse(&source("@ @ fn")).unwrap_err().len(), 2);
}
