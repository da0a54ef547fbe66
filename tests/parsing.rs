use mips_compiler::ast::{
    Argument, BinaryOperator, BuiltinFunctionType, DataStorageType, Expr, Program, Statement, Type,
};
use mips_compiler::compiler::Compiler;
use mips_compiler::error::CompileError;
use mips_compiler::lexer::Lexer;
use mips_compiler::parser::Parser;

fn parse(source: &str) -> Result<Program, CompileError> {
    Compiler::new(source).get_ast()
}

fn main_body(program: &Program) -> &Vec<Statement> {
    match &program.segments.text.body[1] {
        Statement::Function { body, .. } => body,
        other => panic!("not a function: {:?}", other),
    }
}

fn ident(name: &str) -> Expr {
    Expr::Identifier(name.to_string())
}

#[test]
fn start_function_comes_first() {
    let program = parse("void main() { }").unwrap();
    let text = &program.segments.text.body;
    assert_eq!(text.len(), 2);
    match &text[0] {
        Statement::Function { name, params, return_type, body, use_stack } => {
            assert_eq!(name, "_start");
            assert!(params.is_empty());
            assert_eq!(*return_type, Type::Void);
            assert!(!use_stack);
            assert_eq!(
                *body,
                vec![
                    Statement::Instruction { opcode: "jal".to_string(), operands: vec!["main".to_string()] },
                    Statement::Instruction { opcode: "li".to_string(), operands: vec!["$v0, 10".to_string()] },
                    Statement::Instruction { opcode: "syscall".to_string(), operands: vec![] },
                ]
            );
        }
        other => panic!("unexpected {:?}", other),
    }
    match &text[1] {
        Statement::Function { name, use_stack, body, .. } => {
            assert_eq!(name, "main");
            assert!(*use_stack);
            assert_eq!(*body, vec![Statement::Return { value: Expr::Empty }]);
        }
        other => panic!("unexpected {:?}", other),
    }
}

#[test]
fn empty_source_has_only_the_start_function() {
    let program = parse("").unwrap();
    assert_eq!(program.segments.text.body.len(), 1);
    assert!(program.segments.data.body.is_empty());
}

#[test]
fn void_function_keeps_an_explicit_return() {
    let program = parse("void f() { return x; }").unwrap();
    assert_eq!(*main_body(&program), vec![Statement::Return { value: ident("x") }]);
}

#[test]
fn int_function_gets_no_implicit_return() {
    let program = parse("int32 f(int32 a, bool b) { a = 1; }").unwrap();
    match &program.segments.text.body[1] {
        Statement::Function { params, return_type, body, .. } => {
            assert_eq!(*return_type, Type::Int32);
            assert_eq!(params.len(), 2);
            assert_eq!(params[0].name, "a");
            assert_eq!(params[0].param_type, Type::Int32);
            assert_eq!(params[1].name, "b");
            assert_eq!(params[1].param_type, Type::Bool);
            assert_eq!(
                *body,
                vec![Statement::VariableAssignment { identifier: "a".to_string(), operation: Expr::Integer(1) }]
            );
        }
        other => panic!("unexpected {:?}", other),
    }
}

#[test]
fn sibling_while_loops_get_distinct_labels() {
    let program = parse("void main() { while (x < 1) { } while (y) { } }").unwrap();
    let body = main_body(&program);
    match (&body[0], &body[1]) {
        (
            Statement::While { body_label: b0, end_label: e0, .. },
            Statement::While { body_label: b1, end_label: e1, .. },
        ) => {
            assert_eq!(b0, "while_0_body");
            assert_eq!(e0, "while_0_end");
            assert_eq!(b1, "while_1_body");
            assert_eq!(e1, "while_1_end");
        }
        other => panic!("unexpected {:?}", other),
    }
}

#[test]
fn nested_while_is_labelled_before_its_enclosing_loop() {
    let program = parse("void main() { while (a) { while (b) { } } }").unwrap();
    match &main_body(&program)[0] {
        Statement::While { body_label, body, .. } => {
            assert_eq!(body_label, "while_1_body");
            match &body[0] {
                Statement::While { body_label, .. } => assert_eq!(body_label, "while_0_body"),
                other => panic!("unexpected {:?}", other),
            }
        }
        other => panic!("unexpected {:?}", other),
    }
}

#[test]
fn labels_are_unique_across_functions() {
    let program = parse("void f() { if (a) { } } void g() { if (b) { } }").unwrap();
    let labels: Vec<String> = program.segments.text.body[1..]
        .iter()
        .map(|f| match f {
            Statement::Function { body, .. } => match &body[0] {
                Statement::If { label, .. } => label.clone(),
                other => panic!("unexpected {:?}", other),
            },
            other => panic!("unexpected {:?}", other),
        })
        .collect();
    assert_eq!(labels, vec!["if_0".to_string(), "if_1".to_string()]);
}

#[test]
fn string_literals_are_deduplicated_in_first_seen_order() {
    let program =
        parse("void main() { while (x < 3) { sprint(\"a\"); } sprint(\"b\"); string s = \"a\"; }").unwrap();
    assert_eq!(
        program.segments.data.body,
        vec![
            Statement::DataDeclaration {
                label: "str_0".to_string(),
                storage_type: DataStorageType::Asciiz,
                value: "a".to_string(),
            },
            Statement::DataDeclaration {
                label: "str_1".to_string(),
                storage_type: DataStorageType::Asciiz,
                value: "b".to_string(),
            },
        ]
    );
}

#[test]
fn literals_outside_string_declarations_and_prints_are_not_collected() {
    let program = parse("void main() { int32 x = \"n\"; f(\"m\"); sprint(\"p\", 1); }").unwrap();
    assert_eq!(program.segments.data.body.len(), 1);
    match &program.segments.data.body[0] {
        Statement::DataDeclaration { label, value, .. } => {
            assert_eq!(label, "str_0");
            assert_eq!(value, "p");
        }
        other => panic!("unexpected {:?}", other),
    }
}

#[test]
fn declaration_shapes() {
    let program = parse("void main() { int32 a; int32 b = !c + 2; int32 d = f(1, x); bool e = true; }").unwrap();
    let body = main_body(&program);
    let empty_op = Expr::BinaryOp {
        left: Box::new(Expr::Empty),
        operator: BinaryOperator::Empty,
        right: Box::new(Expr::Empty),
        is_not: false,
    };
    assert_eq!(
        body[0],
        Statement::VariableDeclaration { var_type: Type::Int32, identifier: "a".to_string(), operation: empty_op }
    );
    assert_eq!(
        body[1],
        Statement::VariableDeclaration {
            var_type: Type::Int32,
            identifier: "b".to_string(),
            operation: Expr::BinaryOp {
                left: Box::new(ident("c")),
                operator: BinaryOperator::Add,
                right: Box::new(Expr::Integer(2)),
                is_not: true,
            },
        }
    );
    assert_eq!(
        body[2],
        Statement::VariableDeclaration {
            var_type: Type::Int32,
            identifier: "d".to_string(),
            operation: Expr::BinaryOp {
                left: Box::new(Expr::FunctionCall {
                    function_name: "f".to_string(),
                    arguments: vec![Argument { expr: Expr::Integer(1) }, Argument { expr: ident("x") }],
                }),
                operator: BinaryOperator::Empty,
                right: Box::new(Expr::Empty),
                is_not: false,
            },
        }
    );
    assert_eq!(
        body[3],
        Statement::VariableDeclaration {
            var_type: Type::Bool,
            identifier: "e".to_string(),
            operation: Expr::BinaryOp {
                left: Box::new(Expr::BoolLiteral(true)),
                operator: BinaryOperator::Empty,
                right: Box::new(Expr::Empty),
                is_not: false,
            },
        }
    );
}

#[test]
fn increment_and_decrement() {
    // The increment form takes no semicolon of its own, as in a `for` header.
    let program = parse("void main() { x++ y-- z = z - 1; }").unwrap();
    let body = main_body(&program);
    assert_eq!(
        body[0],
        Statement::VariableAssignment {
            identifier: "x".to_string(),
            operation: Expr::BinaryOp {
                left: Box::new(ident("x")),
                operator: BinaryOperator::Add,
                right: Box::new(Expr::Integer(1)),
                is_not: false,
            },
        }
    );
    assert_eq!(
        body[1],
        Statement::VariableAssignment {
            identifier: "y".to_string(),
            operation: Expr::BinaryOp {
                left: Box::new(ident("y")),
                operator: BinaryOperator::Subtract,
                right: Box::new(Expr::Integer(1)),
                is_not: false,
            },
        }
    );
    assert_eq!(
        body[2],
        Statement::VariableAssignment {
            identifier: "z".to_string(),
            operation: Expr::BinaryOp {
                left: Box::new(ident("z")),
                operator: BinaryOperator::Subtract,
                right: Box::new(Expr::Integer(1)),
                is_not: false,
            },
        }
    );
}

#[test]
fn if_condition_sense_starts_negated() {
    let program = parse("void main() { if (a == 1) { } if (!b) { } while (c) { } }").unwrap();
    let body = main_body(&program);
    match &body[0] {
        Statement::If { label, condition, .. } => {
            assert_eq!(label, "if_0");
            assert_eq!(
                *condition,
                Expr::BinaryOp {
                    left: Box::new(ident("a")),
                    operator: BinaryOperator::Equal,
                    right: Box::new(Expr::Integer(1)),
                    is_not: true,
                }
            );
        }
        other => panic!("unexpected {:?}", other),
    }
    match &body[1] {
        Statement::If { condition, .. } => assert_eq!(
            *condition,
            Expr::BinaryOp {
                left: Box::new(ident("b")),
                operator: BinaryOperator::Equal,
                right: Box::new(Expr::Empty),
                is_not: false,
            }
        ),
        other => panic!("unexpected {:?}", other),
    }
    match &body[2] {
        Statement::While { condition, .. } => assert_eq!(
            *condition,
            Expr::BinaryOp {
                left: Box::new(ident("c")),
                operator: BinaryOperator::Equal,
                right: Box::new(Expr::Empty),
                is_not: false,
            }
        ),
        other => panic!("unexpected {:?}", other),
    }
}

#[test]
fn for_loop_shape() {
    let program = parse("void main() { for (int32 i = 0; i < 10; i++) { iprint(i); } }").unwrap();
    match &main_body(&program)[0] {
        Statement::For { init, body_label, end_label, condition, var_change, body } => {
            assert_eq!(body_label, "for_0_body");
            assert_eq!(end_label, "for_0_end");
            assert!(matches!(**init, Statement::VariableDeclaration { .. }));
            assert_eq!(
                *condition,
                Expr::BinaryOp {
                    left: Box::new(ident("i")),
                    operator: BinaryOperator::LessThan,
                    right: Box::new(Expr::Integer(10)),
                    is_not: false,
                }
            );
            assert!(matches!(**var_change, Statement::VariableAssignment { .. }));
            assert_eq!(
                *body,
                vec![Statement::BuiltinFunctionCall {
                    function_type: BuiltinFunctionType::IntegerPrint,
                    arguments: vec![Argument { expr: ident("i") }],
                }]
            );
        }
        other => panic!("unexpected {:?}", other),
    }
}

#[test]
fn increment_followed_by_a_semicolon_leaves_a_stray_semicolon() {
    assert!(matches!(parse("void main() { x++; }"), Err(CompileError::ParseError { .. })));
}

#[test]
fn call_statement() {
    let program = parse("void main() { f(1, \"s\"); }").unwrap();
    assert_eq!(
        main_body(&program)[0],
        Statement::FunctionCall {
            function_name: "f".to_string(),
            arguments: vec![
                Argument { expr: Expr::Integer(1) },
                Argument { expr: Expr::StringLiteral("s".to_string()) },
            ],
        }
    );
}

#[test]
fn missing_initializer_is_a_parse_error() {
    match parse("int32 x = ;") {
        Err(CompileError::ParseError { message, line }) => {
            assert_eq!(line, 0);
            assert_eq!(message, "Expected expression, found Semicolon");
        }
        other => panic!("unexpected {:?}", other),
    }
}

#[test]
fn missing_semicolon_is_a_parse_error() {
    match parse("void main() { x = 1 }") {
        Err(CompileError::ParseError { message, .. }) => assert!(message.contains("Semicolon")),
        other => panic!("unexpected {:?}", other),
    }
}

#[test]
fn assignment_to_a_literal_is_a_parse_error() {
    assert!(matches!(parse("void main() { 1 = 2; }"), Err(CompileError::ParseError { .. })));
    assert!(matches!(parse("void main() { 5++; }"), Err(CompileError::ParseError { .. })));
}

#[test]
fn unsupported_comparison_is_a_parse_error() {
    match parse("void main() { while (x + 1) { } }") {
        Err(CompileError::ParseError { message, line }) => {
            assert_eq!(message, "Expected comparison operator, found Plus");
            assert_eq!(line, 0);
        }
        other => panic!("unexpected {:?}", other),
    }
}

#[test]
fn expect_reports_expected_and_found_kinds() {
    match parse("void main() { x = 1 }") {
        Err(CompileError::ParseError { message, .. }) => {
            assert_eq!(message, "Expected Semicolon, found RightBrace")
        }
        other => panic!("unexpected {:?}", other),
    }
    match parse("void main( { }") {
        Err(CompileError::ParseError { message, .. }) => assert_eq!(message, "Expected type, found LeftBrace"),
        other => panic!("unexpected {:?}", other),
    }
}

#[test]
fn non_name_targets_report_their_message() {
    match parse("void main() { 1 = 2; }") {
        Err(CompileError::ParseError { message, .. }) => {
            assert_eq!(message, "Left side of assignment must be an identifier")
        }
        other => panic!("unexpected {:?}", other),
    }
    match parse("void main() { 5++ }") {
        Err(CompileError::ParseError { message, .. }) => {
            assert_eq!(message, "Left side of unary must be an identifier")
        }
        other => panic!("unexpected {:?}", other),
    }
}

#[test]
fn equal_tokens_give_equal_errors() {
    let source = "void main() { while (x) { y = ; } }";
    let first = Parser::new(Lexer::new(source).tokenize().unwrap()).parse().unwrap_err();
    let second = Parser::new(Lexer::new(source).tokenize().unwrap()).parse().unwrap_err();
    assert_eq!(first, second);
    assert_eq!(Compiler::new(source).get_ast().unwrap_err(), first);
    assert_eq!(Compiler::new(source).compile(false).unwrap_err(), first);
}

#[test]
fn unclosed_block_is_a_parse_error() {
    assert!(matches!(parse("void main() { x = 1;"), Err(CompileError::ParseError { .. })));
}

#[test]
fn lexical_errors_surface_from_the_front_end() {
    assert!(matches!(parse("void main() { $ }"), Err(CompileError::LexError { line: 1, .. })));
}

#[test]
fn parsing_is_a_function_of_the_tokens() {
    let source = "void main() { while (i < 3) { sprint(\"a\"); i++ } if (j) { iprint(j); } }";
    let first = Parser::new(Lexer::new(source).tokenize().unwrap()).parse().unwrap();
    let second = Parser::new(Lexer::new(source).tokenize().unwrap()).parse().unwrap();
    assert_eq!(first.segments.text.body, second.segments.text.body);
    assert_eq!(first.segments.data.body, second.segments.data.body);
}
