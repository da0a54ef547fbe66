use mips_compiler::allocator::{Allocator, Register, VariableLocation};
use mips_compiler::compiler::Compiler;
use mips_compiler::error::CompileError;
use mips_compiler::ast::Statement;

#[test]
fn temporaries_are_leased_in_order_until_exhausted() {
    let mut a = Allocator::new();
    let expected = [
        Register::T0,
        Register::T1,
        Register::T2,
        Register::T3,
        Register::T4,
        Register::T5,
        Register::T6,
        Register::T7,
    ];
    for reg in expected {
        assert_eq!(a.allocate_temp(), Some(reg));
    }
    assert_eq!(a.allocate_temp(), None);
    a.free_temp(Register::T3);
    assert_eq!(a.allocate_temp(), Some(Register::T3));
    assert_eq!(a.allocate_temp(), None);
}

#[test]
fn freeing_an_unleased_register_is_ignored() {
    let mut a = Allocator::new();
    a.free_temp(Register::T5);
    assert_eq!(a.allocate_temp(), Some(Register::T0));
    a.free_temp(Register::T5);
    assert_eq!(a.allocate_temp(), Some(Register::T1));
}

#[test]
fn stack_offsets_fill_the_frame_from_the_top() {
    let program = Compiler::new("void f(int32 a, int32 b) { int32 x = 1; int32 y = 2; int32 z = 3; }")
        .get_ast()
        .unwrap();
    let (body, params) = match &program.segments.text.body[1] {
        Statement::Function { body, params, .. } => (body, params),
        other => panic!("unexpected {:?}", other),
    };
    let mut a = Allocator::new();
    assert_eq!(a.calculate_needed_stack_space(body, params.len()), 24);
    assert_eq!(*a.get_stack_size(), 24);
    a.add_stack_variable("x");
    a.add_stack_variable("y");
    a.add_stack_variable("z");
    assert_eq!(a.get_stack_variable_offset("x"), Some(20));
    assert_eq!(a.get_stack_variable_offset("y"), Some(16));
    assert_eq!(a.get_stack_variable_offset("z"), Some(12));
    assert_eq!(a.get_stack_variable_offset("w"), None);
    assert_eq!(a.get_variable_register("y").unwrap(), "16($sp)");
    assert_eq!(a.get_variable_location("y"), VariableLocation::Stack);
}

#[test]
fn nested_declarations_and_for_loops_take_slots() {
    let program = Compiler::new(
        "void f() { int32 a; while (a < 1) { int32 b; if (b) { int32 c; } } for (int32 i = 0; i < 2; i++) { int32 d; } }",
    )
    .get_ast()
    .unwrap();
    let body = match &program.segments.text.body[1] {
        Statement::Function { body, .. } => body,
        other => panic!("unexpected {:?}", other),
    };
    let mut a = Allocator::new();
    // return address, then a, b, c, the loop variable i and d
    assert_eq!(a.calculate_needed_stack_space(body, 0), 4 + 4 * 5);
}

#[test]
fn arguments_take_the_argument_registers_in_order() {
    let mut a = Allocator::new();
    for name in ["p", "q", "r", "s"] {
        assert!(a.add_argument(name).is_ok());
    }
    assert_eq!(a.get_argument_register("p").unwrap(), "$a0");
    assert_eq!(a.get_argument_register("s").unwrap(), "$a3");
    match a.get_argument_register("t") {
        Err(CompileError::UndefinedVariableError { message, line }) => {
            assert_eq!(message, "t is not defined");
            assert_eq!(line, 0);
        }
        other => panic!("unexpected {:?}", other),
    }
    assert_eq!(a.get_variable_register("q").unwrap(), "$a1");
    assert_eq!(a.get_variable_location("q"), VariableLocation::ArgumentRegister);
    match a.add_argument("t") {
        Err(CompileError::CodeGenError { .. }) => {}
        other => panic!("unexpected {:?}", other),
    }
}

#[test]
fn unknown_names_are_undefined_variables() {
    let a = Allocator::new();
    match a.get_variable_register("nope") {
        Err(CompileError::UndefinedVariableError { message, .. }) => assert!(message.contains("nope")),
        other => panic!("unexpected {:?}", other),
    }
}

#[test]
fn register_names() {
    assert_eq!(Register::T0.name(), "$t0");
    assert_eq!(Register::Zero.name(), "$zero");
    assert_eq!(Register::SP.name(), "$sp");
    assert_eq!(Register::RA.name(), "$ra");
}
