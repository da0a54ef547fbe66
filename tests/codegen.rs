use mips_compiler::compiler::Compiler;
use mips_compiler::error::CompileError;
use mips_compiler::mips::MipsGenerator;

fn compile(source: &str, comments: bool) -> Result<String, CompileError> {
    Compiler::new(source).compile(comments)
}

fn lines(text: &[&str]) -> String {
    let mut out = String::new();
    for l in text {
        out.push_str(l);
        out.push('\n');
    }
    out
}

const START: [&str; 6] = [".data", ".text", "_start:", "    jal main", "    li $v0, 10", "    syscall"];

#[test]
fn declaration_and_print() {
    let output = compile("void main() { int32 x = 5; iprint(x); }", false).unwrap();
    let mut expected: Vec<&str> = START.to_vec();
    expected.extend([
        "main:",
        "    addi $sp, $sp, -8",
        "    sw $ra, 0($sp)",
        "    li $t0, 5",
        "    sw $t0, 4($sp)",
        "    lw $t0, 4($sp)",
        "    move $t8, $a0",
        "    move $a0, $t0",
        "    li $v0, 1",
        "    syscall",
        "    move $a0, $t8",
        "    lw $ra, 0($sp)",
        "    addi $sp, $sp, 8",
        "    jr $ra",
    ]);
    assert_eq!(output, lines(&expected));
}

#[test]
fn while_loop_uses_the_parser_labels() {
    let output = compile("void main() { int32 i = 0; while (i < 3) { i = i + 1; } }", false).unwrap();
    let mut expected: Vec<&str> = START.to_vec();
    expected.extend([
        "main:",
        "    addi $sp, $sp, -8",
        "    sw $ra, 0($sp)",
        "    li $t0, 0",
        "    sw $t0, 4($sp)",
        "while_0_body:",
        "    lw $t0, 4($sp)",
        "    li $t1, 3",
        "    slt $t0, $t0, $t1",
        "    beq $t0, $zero, while_0_end",
        "    lw $t0, 4($sp)",
        "    li $t1, 1",
        "    add $t0, $t0, $t1",
        "    sw $t0, 4($sp)",
        "    j while_0_body",
        "while_0_end:",
        "    lw $ra, 0($sp)",
        "    addi $sp, $sp, 8",
        "    jr $ra",
    ]);
    assert_eq!(output, lines(&expected));
}

#[test]
fn strings_parameters_and_calls() {
    let output = compile(
        "int32 id(int32 a) { return a; } void main() { string s = \"hi\"; sprint(s); int32 r = id(7); }",
        false,
    )
    .unwrap();
    let expected = [
        ".data",
        "str_0: .asciiz \"hi\"",
        ".text",
        "_start:",
        "    jal main",
        "    li $v0, 10",
        "    syscall",
        "id:",
        "    addi $sp, $sp, -8",
        "    sw $ra, 0($sp)",
        "    move $t0, $a0",
        "    move $v0, $t0",
        "    lw $ra, 0($sp)",
        "    addi $sp, $sp, 8",
        "    jr $ra",
        "main:",
        "    addi $sp, $sp, -12",
        "    sw $ra, 0($sp)",
        "    la $t0, str_0",
        "    sw $t0, 8($sp)",
        "    lw $t0, 8($sp)",
        "    move $t8, $a0",
        "    move $a0, $t0",
        "    li $v0, 4",
        "    syscall",
        "    move $a0, $t8",
        "    li $t0, 7",
        "    move $a0, $t0",
        "    jal id",
        "    move $t0, $v0",
        "    sw $t0, 4($sp)",
        "    lw $ra, 0($sp)",
        "    addi $sp, $sp, 12",
        "    jr $ra",
    ];
    assert_eq!(output, lines(&expected));
}

#[test]
fn if_skips_its_body_on_a_nonzero_condition_value() {
    let output = compile("void main() { int32 a = 1; if (a == 1) { iprint(a); } }", false).unwrap();
    assert!(output.contains(
        "    lw $t0, 4($sp)\n    li $t1, 1\n    seq $t0, $t0, $t1\n    seq $t0, $t0, $zero\n    bne $t0, $zero, if_0\n"
    ));
    assert!(output.contains("    move $a0, $t8\nif_0:\n"));
}

#[test]
fn comments_only_add_comment_lines() {
    let source = "void main() { int32 i = 0; for (int32 j = 0; j < 2; j++) { if (!i) { iprint(j); } } }";
    let plain = compile(source, false).unwrap();
    let commented = compile(source, true).unwrap();
    assert!(commented.contains("    # for\n"));
    assert!(commented.contains("    # declare i\n"));
    let stripped: String = commented
        .lines()
        .filter(|l| !l.starts_with("    # "))
        .map(|l| format!("{}\n", l))
        .collect();
    assert_eq!(stripped, plain);
    assert!(!plain.contains('#'));
}

#[test]
fn function_without_a_final_return_gets_an_epilogue() {
    let output = compile("int32 f() { int32 a = 1; } void main() { }", false).unwrap();
    assert!(output.contains(
        "f:\n    addi $sp, $sp, -8\n    sw $ra, 0($sp)\n    li $t0, 1\n    sw $t0, 4($sp)\n    lw $ra, 0($sp)\n    addi $sp, $sp, 8\n    jr $ra\nmain:\n"
    ));
}

#[test]
fn undefined_variable_is_reported() {
    assert!(matches!(
        compile("void main() { x = 1; }", false),
        Err(CompileError::UndefinedVariableError { .. })
    ));
}

#[test]
fn too_many_call_arguments_is_a_code_generation_error() {
    assert!(matches!(
        compile("void main() { f(1, 2, 3, 4, 5); }", false),
        Err(CompileError::CodeGenError { .. })
    ));
}

#[test]
fn too_many_parameters_is_a_code_generation_error() {
    assert!(matches!(
        compile("void f(int32 a, int32 b, int32 c, int32 d, int32 e) { }", false),
        Err(CompileError::CodeGenError { .. })
    ));
}

#[test]
fn top_level_statements_other_than_functions_are_rejected() {
    assert!(matches!(compile("int32 g = 1;", false), Err(CompileError::CodeGenError { .. })));
}

#[test]
fn front_end_errors_pass_through() {
    assert!(matches!(compile("int32 x = ;", false), Err(CompileError::ParseError { .. })));
    assert!(matches!(compile("int32 x = 1 $", false), Err(CompileError::LexError { .. })));
}

#[test]
fn generator_over_a_parsed_program() {
    let program = Compiler::new("void main() { }").get_ast().unwrap();
    let text = MipsGenerator::new(program, false).generate().unwrap();
    let mut expected: Vec<&str> = START.to_vec();
    expected.extend(["main:", "    addi $sp, $sp, -4", "    sw $ra, 0($sp)", "    lw $ra, 0($sp)", "    addi $sp, $sp, 4", "    jr $ra"]);
    assert_eq!(text, lines(&expected));
}
