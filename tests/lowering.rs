use noir_aleo::ast::{
    BinaryOp, Expr, ExprKind, Function, Module, Param, Pattern, PatternKind, Signedness,
    Statement, StatementKind, TypeAnnotation, TypeKind, Visibility,
};
use noir_aleo::error::{ConstraintShape, LowerError, ProgramError};
use noir_aleo::lower::{
    compile_function, compile_program, compile_to_aleo_instructions, function_registers_fit,
    registers_fit_all, to_aleo_operator, to_aleo_type, to_aleo_visibility,
};

fn ident(name: &str) -> Expr {
    Expr::Ident(name.to_string())
}

fn infix(lhs: Expr, op: BinaryOp, rhs: Expr) -> Expr {
    Expr::Infix(Box::new(lhs), op, Box::new(rhs))
}

fn param(name: &str, typ: TypeAnnotation, visibility: Visibility) -> Param {
    Param { pattern: Pattern::Identifier(name.to_string()), typ, visibility }
}

fn u32_type() -> TypeAnnotation {
    TypeAnnotation::Integer(Signedness::Unsigned, 32)
}

fn function(name: &str, parameters: Vec<Param>, body: Vec<Statement>) -> Function {
    Function {
        name: name.to_string(),
        parameters,
        body,
        return_type: u32_type(),
        return_visibility: Visibility::Private,
    }
}

fn add_function() -> Function {
    function(
        "add",
        vec![
            param("a", u32_type(), Visibility::Private),
            param("b", u32_type(), Visibility::Private),
        ],
        vec![Statement::Expression(infix(ident("a"), BinaryOp::Add, ident("b")))],
    )
}

fn lower_one(f: Function) -> Result<String, ProgramError> {
    compile_program("main.nr", &Module { functions: vec![f] })
}

#[test]
fn test_compile_noir_hello_world_to_aleo_instructions() {
    let main = Function {
        name: "main".to_string(),
        parameters: vec![
            param("x", TypeAnnotation::FieldElement, Visibility::Private),
            param("y", TypeAnnotation::FieldElement, Visibility::Public),
        ],
        body: vec![
            Statement::Constrain(infix(ident("x"), BinaryOp::NotEqual, ident("y"))),
            Statement::Expression(infix(ident("x"), BinaryOp::Add, ident("y"))),
        ],
        return_type: TypeAnnotation::FieldElement,
        return_visibility: Visibility::Public,
    };
    let program = compile_to_aleo_instructions("main.nr", &Module { functions: vec![main] })
        .unwrap();
    assert_eq!(program.path, "build/aleo/main.nr.aleo");
    assert_eq!(
        program.source,
        "program main.nr.aleo;\n\nfunction main:\n\tinput r0 as field.private;\n\tinput r1 as field.public;\n\tassert.neq r0 r1;\n\tadd r0 r1 into r2;\n\toutput r2 as field.public;\n"
    );
}

#[test]
fn test_add() {
    let noir_ast = Module { functions: vec![add_function()] };
    let expected_compiled_program = "program main.nr.aleo;\n\nfunction add:\n\tinput r0 as u32.private;\n\tinput r1 as u32.private;\n\tadd r0 r1 into r2;\n\toutput r2 as u32.private;\n";

    let compiled_program = compile_program("main.nr", &noir_ast).unwrap();

    assert_eq!(compiled_program, expected_compiled_program);
}

#[test]
fn add_function_body_lowers_to_one_add() {
    let mut out = String::new();
    compile_function(&add_function(), &mut out).unwrap();
    assert_eq!(
        out,
        "function add:\n\tinput r0 as u32.private;\n\tinput r1 as u32.private;\n\tadd r0 r1 into r2;\n\toutput r2 as u32.private;\n"
    );
}

#[test]
fn parameters_take_registers_in_order() {
    let f = function(
        "id",
        vec![
            param("a", u32_type(), Visibility::Private),
            param("b", TypeAnnotation::FieldElement, Visibility::Public),
            param("c", TypeAnnotation::Integer(Signedness::Signed, 8), Visibility::Private),
        ],
        vec![Statement::Expression(ident("b"))],
    );
    assert_eq!(
        lower_one(f).unwrap(),
        "program main.nr.aleo;\n\nfunction id:\n\tinput r0 as u32.private;\n\tinput r1 as field.public;\n\tinput r2 as i8.private;\n\toutput r2 as u32.private;\n"
    );
}

#[test]
fn lowering_twice_gives_the_same_text() {
    let first = lower_one(add_function()).unwrap();
    let second = lower_one(add_function()).unwrap();
    assert_eq!(first, second);
}

#[test]
fn nested_expressions_number_registers_without_gaps() {
    let f = function(
        "f",
        vec![
            param("a", u32_type(), Visibility::Private),
            param("b", u32_type(), Visibility::Private),
        ],
        vec![Statement::Expression(infix(
            infix(ident("a"), BinaryOp::Add, ident("b")),
            BinaryOp::Multiply,
            infix(ident("a"), BinaryOp::Subtract, ident("b")),
        ))],
    );
    assert_eq!(
        lower_one(f).unwrap(),
        "program main.nr.aleo;\n\nfunction f:\n\tinput r0 as u32.private;\n\tinput r1 as u32.private;\n\tadd r0 r1 into r2;\n\tsub r0 r1 into r3;\n\tmul r2 r3 into r4;\n\toutput r4 as u32.private;\n"
    );
}

#[test]
fn equality_constraint_over_names_is_one_assert() {
    let f = function(
        "f",
        vec![
            param("a", u32_type(), Visibility::Private),
            param("b", u32_type(), Visibility::Private),
        ],
        vec![Statement::Constrain(infix(ident("a"), BinaryOp::Equal, ident("b")))],
    );
    let mut out = String::new();
    compile_function(&f, &mut out).unwrap();
    assert_eq!(
        out,
        "function f:\n\tinput r0 as u32.private;\n\tinput r1 as u32.private;\n\tassert.eq r0 r1;\n\toutput r1 as u32.private;\n"
    );
}

#[test]
fn constraint_over_nested_expression_emits_intermediates_first() {
    let f = function(
        "f",
        vec![
            param("a", u32_type(), Visibility::Private),
            param("b", u32_type(), Visibility::Private),
        ],
        vec![Statement::Constrain(infix(
            infix(ident("a"), BinaryOp::Multiply, ident("b")),
            BinaryOp::NotEqual,
            ident("a"),
        ))],
    );
    assert_eq!(
        lower_one(f).unwrap(),
        "program main.nr.aleo;\n\nfunction f:\n\tinput r0 as u32.private;\n\tinput r1 as u32.private;\n\tmul r0 r1 into r2;\n\tassert.neq r2 r0;\n\toutput r2 as u32.private;\n"
    );
}

#[test]
fn unbound_identifier_fails_without_output() {
    let f = function(
        "f",
        vec![param("a", u32_type(), Visibility::Private)],
        vec![Statement::Expression(infix(ident("a"), BinaryOp::Add, ident("c")))],
    );
    assert_eq!(
        lower_one(f),
        Err(ProgramError {
            function: "f".to_string(),
            error: LowerError::UnboundIdentifier("c".to_string()),
        })
    );
    let mut out = String::from("kept");
    let g = function(
        "g",
        vec![param("a", u32_type(), Visibility::Private)],
        vec![Statement::Expression(ident("z"))],
    );
    assert_eq!(
        compile_function(&g, &mut out),
        Err(LowerError::UnboundIdentifier("z".to_string()))
    );
    assert_eq!(out, "kept");
}

#[test]
fn unsupported_expression_names_its_kind() {
    let f = function(
        "f",
        vec![param("a", u32_type(), Visibility::Private)],
        vec![Statement::Expression(infix(
            ident("a"),
            BinaryOp::Add,
            Expr::Other(ExprKind::Literal),
        ))],
    );
    assert_eq!(
        lower_one(f).unwrap_err().error,
        LowerError::UnsupportedExpression(ExprKind::Literal)
    );
    let g = function(
        "g",
        vec![param("a", u32_type(), Visibility::Private)],
        vec![Statement::Expression(Expr::Other(ExprKind::If))],
    );
    assert_eq!(lower_one(g).unwrap_err().error, LowerError::UnsupportedExpression(ExprKind::If));
}

#[test]
fn empty_function_has_no_output_register() {
    let f = function("f", vec![], vec![]);
    assert_eq!(lower_one(f).unwrap_err().error, LowerError::EmptyRegistry);
}

#[test]
fn unsupported_parameter_type_is_reported() {
    let f = function(
        "f",
        vec![param("a", TypeAnnotation::Other(TypeKind::Bool), Visibility::Private)],
        vec![],
    );
    assert_eq!(lower_one(f).unwrap_err().error, LowerError::UnsupportedType(TypeKind::Bool));
}

#[test]
fn unsupported_return_type_is_reported() {
    let mut f = add_function();
    f.return_type = TypeAnnotation::Other(TypeKind::Unit);
    assert_eq!(lower_one(f).unwrap_err().error, LowerError::UnsupportedType(TypeKind::Unit));
}

#[test]
fn unsupported_pattern_is_reported() {
    let f = function(
        "f",
        vec![Param {
            pattern: Pattern::Other(PatternKind::Mutable),
            typ: u32_type(),
            visibility: Visibility::Private,
        }],
        vec![],
    );
    assert_eq!(
        lower_one(f).unwrap_err().error,
        LowerError::UnsupportedPattern(PatternKind::Mutable)
    );
}

#[test]
fn unsupported_statement_is_reported() {
    let f = function(
        "f",
        vec![param("a", u32_type(), Visibility::Private)],
        vec![Statement::Other(StatementKind::Let)],
    );
    assert_eq!(
        lower_one(f).unwrap_err().error,
        LowerError::UnsupportedStatement(StatementKind::Let)
    );
}

#[test]
fn unsupported_constraints_are_reported() {
    let params = || vec![param("a", u32_type(), Visibility::Private)];
    let relational = function(
        "f",
        params(),
        vec![Statement::Constrain(infix(ident("a"), BinaryOp::Less, ident("a")))],
    );
    assert_eq!(
        lower_one(relational).unwrap_err().error,
        LowerError::UnsupportedConstraint(ConstraintShape::Operator(BinaryOp::Less))
    );
    let bare = function("f", params(), vec![Statement::Constrain(ident("a"))]);
    assert_eq!(
        lower_one(bare).unwrap_err().error,
        LowerError::UnsupportedConstraint(ConstraintShape::Identifier)
    );
    let call = function("f", params(), vec![Statement::Constrain(Expr::Other(ExprKind::Call))]);
    assert_eq!(
        lower_one(call).unwrap_err().error,
        LowerError::UnsupportedConstraint(ConstraintShape::Expression(ExprKind::Call))
    );
}

#[test]
fn bare_identifier_statement_emits_nothing() {
    let f = function(
        "f",
        vec![param("a", u32_type(), Visibility::Private)],
        vec![Statement::Expression(ident("a")), Statement::Expression(ident("a"))],
    );
    assert_eq!(
        lower_one(f).unwrap(),
        "program main.nr.aleo;\n\nfunction f:\n\tinput r0 as u32.private;\n\toutput r0 as u32.private;\n"
    );
}

#[test]
fn functions_are_emitted_in_declaration_order() {
    let mut second = add_function();
    second.name = "plus".to_string();
    let program =
        compile_program("two", &Module { functions: vec![add_function(), second] }).unwrap();
    assert_eq!(
        program,
        "program two.aleo;\n\nfunction add:\n\tinput r0 as u32.private;\n\tinput r1 as u32.private;\n\tadd r0 r1 into r2;\n\toutput r2 as u32.private;\nfunction plus:\n\tinput r0 as u32.private;\n\tinput r1 as u32.private;\n\tadd r0 r1 into r2;\n\toutput r2 as u32.private;\n"
    );
}

#[test]
fn failure_names_the_failing_function() {
    let bad = function("bad", vec![], vec![]);
    let result = compile_program("p", &Module { functions: vec![add_function(), bad] });
    assert_eq!(
        result,
        Err(ProgramError { function: "bad".to_string(), error: LowerError::EmptyRegistry })
    );
}

#[test]
fn empty_module_is_only_the_header() {
    assert_eq!(compile_program("p", &Module { functions: vec![] }).unwrap(), "program p.aleo;\n\n");
}

#[test]
fn operator_mnemonics() {
    let table = [
        (BinaryOp::Add, "add"),
        (BinaryOp::Subtract, "sub"),
        (BinaryOp::Multiply, "mul"),
        (BinaryOp::Divide, "div"),
        (BinaryOp::Equal, "is.eq"),
        (BinaryOp::NotEqual, "is.neq"),
        (BinaryOp::Less, "lt"),
        (BinaryOp::LessEqual, "lte"),
        (BinaryOp::Greater, "gt"),
        (BinaryOp::GreaterEqual, "gte"),
        (BinaryOp::And, "and"),
        (BinaryOp::Or, "or"),
        (BinaryOp::Xor, "xor"),
        (BinaryOp::ShiftRight, "shr"),
        (BinaryOp::ShiftLeft, "shl"),
        (BinaryOp::Modulo, "mod"),
    ];
    for (op, mnemonic) in table {
        assert_eq!(to_aleo_operator(op), mnemonic);
    }
}

#[test]
fn equality_as_a_value_is_not_an_assertion() {
    let f = function(
        "f",
        vec![
            param("a", u32_type(), Visibility::Private),
            param("b", u32_type(), Visibility::Private),
        ],
        vec![Statement::Expression(infix(ident("a"), BinaryOp::Equal, ident("b")))],
    );
    assert!(lower_one(f).unwrap().contains("\tis.eq r0 r1 into r2;\n"));
}

#[test]
fn type_and_visibility_mapping() {
    assert_eq!(to_aleo_type(&TypeAnnotation::FieldElement).unwrap(), "field");
    assert_eq!(to_aleo_type(&TypeAnnotation::Integer(Signedness::Signed, 64)).unwrap(), "i64");
    assert_eq!(to_aleo_type(&TypeAnnotation::Integer(Signedness::Unsigned, 128)).unwrap(), "u128");
    assert_eq!(
        to_aleo_type(&TypeAnnotation::Other(TypeKind::Array)),
        Err(LowerError::UnsupportedType(TypeKind::Array))
    );
    assert_eq!(to_aleo_visibility(Visibility::Public), "public");
    assert_eq!(to_aleo_visibility(Visibility::Private), "private");
}

#[test]
fn register_count_check() {
    assert!(function_registers_fit(&add_function()));
    assert!(registers_fit_all(&Module { functions: vec![add_function()] }));
}

use noir_aleo::lower::{handle_expression, to_aleo_input_line, to_aleo_operation_line};
use noir_aleo::registry::Registry;

fn registry_with(names: &[&str]) -> Registry {
    let mut registry = Registry::new();
    for name in names {
        registry.allocate(Some(name.to_string()));
    }
    registry
}

#[test]
fn intermediates_are_numbered_in_post_order() {
    let mut registry = registry_with(&["a", "b"]);
    let mut out = String::new();
    let e = infix(
        infix(ident("a"), BinaryOp::Add, ident("b")),
        BinaryOp::Divide,
        infix(ident("b"), BinaryOp::Modulo, infix(ident("a"), BinaryOp::Xor, ident("a"))),
    );
    assert_eq!(handle_expression(&e, &mut registry, &mut out), Ok(5));
    assert_eq!(registry.len(), 6);
    assert_eq!(
        out,
        "\tadd r0 r1 into r2;\n\txor r0 r0 into r3;\n\tmod r1 r3 into r4;\n\tdiv r2 r4 into r5;\n"
    );
    assert_eq!(registry.last(), Ok(5));
    assert_eq!(registry.resolve(&"b".to_string()), Ok(1));
}

#[test]
fn failing_infix_writes_no_line_of_its_own() {
    let mut registry = registry_with(&["a"]);
    let mut out = String::new();
    let e = infix(
        infix(ident("a"), BinaryOp::Add, ident("a")),
        BinaryOp::Subtract,
        infix(ident("a"), BinaryOp::Add, Expr::Other(ExprKind::Ident)),
    );
    assert_eq!(
        handle_expression(&e, &mut registry, &mut out),
        Err(LowerError::UnsupportedExpression(ExprKind::Ident))
    );
    assert_eq!(out, "\tadd r0 r0 into r1;\n");
    assert_eq!(registry.len(), 2);
}

#[test]
fn rejected_statements_leave_state_alone() {
    let mut registry = registry_with(&["a"]);
    let mut out = String::from("x");
    for statement in [
        Statement::Other(StatementKind::Semi),
        Statement::Constrain(infix(ident("a"), BinaryOp::Add, ident("a"))),
        Statement::Constrain(ident("a")),
    ] {
        assert!(to_aleo_operation_line(&statement, &mut registry, &mut out).is_err());
        assert_eq!(out, "x");
        assert_eq!(registry.len(), 1);
    }
}

#[test]
fn equality_constraint_step_is_one_line() {
    let mut registry = registry_with(&["a", "b", "c"]);
    let mut out = String::new();
    let statement = Statement::Constrain(infix(ident("c"), BinaryOp::Equal, ident("a")));
    assert_eq!(to_aleo_operation_line(&statement, &mut registry, &mut out), Ok(()));
    assert_eq!(out, "\tassert.eq r2 r0;\n");
    assert_eq!(registry.len(), 3);
}

#[test]
fn rejected_parameters_leave_state_alone() {
    let mut registry = registry_with(&["a"]);
    let mut out = String::from("x");
    let bad_type = param("b", TypeAnnotation::Other(TypeKind::Tuple), Visibility::Public);
    assert_eq!(
        to_aleo_input_line(&bad_type, &mut registry, &mut out),
        Err(LowerError::UnsupportedType(TypeKind::Tuple))
    );
    let bad_pattern = Param {
        pattern: Pattern::Other(PatternKind::Struct),
        typ: u32_type(),
        visibility: Visibility::Public,
    };
    assert_eq!(
        to_aleo_input_line(&bad_pattern, &mut registry, &mut out),
        Err(LowerError::UnsupportedPattern(PatternKind::Struct))
    );
    assert_eq!(out, "x");
    assert_eq!(registry.len(), 1);
    let good = param("b", TypeAnnotation::Integer(Signedness::Signed, 16), Visibility::Public);
    assert_eq!(to_aleo_input_line(&good, &mut registry, &mut out), Ok(()));
    assert_eq!(out, "x\tinput r1 as i16.public;\n");
}
