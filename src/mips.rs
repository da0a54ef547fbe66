use vstd::prelude::*;
use vstd::string::StringExecFns;
use crate::allocator::{
    Allocator, Register, argument_pool, bind, bound_registers, decl_slots, first_free, lookup,
    register_name, stack_operand, temp_pool, without,
};
use crate::ast::{
    Argument, BinaryOperator, BuiltinFunctionType, Expr, ExprV, Program, Statement,
    StatementV, Type, args_view, params_view, stmts_view, strings_view,
};
use crate::error::CompileError;
use crate::grammar::{data_label, ends_in_return};
use crate::text::{dec_seq, decimal_string};

verus! {

/// One line of assembly: a comment (`true`) or code, and its text.
pub type LineV = (bool, Seq<char>);

/// What a function body's lowering can see: the stack slots and argument registers bound so
/// far, the frame size, and the values of the data segment.
pub struct Scope {
    pub stack: Seq<(Seq<char>, usize)>,
    pub args: Seq<(Seq<char>, Register)>,
    pub frame: usize,
    pub data: Seq<Seq<char>>,
}

pub open spec fn code_line(text: Seq<char>) -> LineV {
    (false, text)
}

pub open spec fn comment_line(text: Seq<char>) -> LineV {
    (true, "    # "@ + text)
}

/// An instruction: `    op operands`.
pub open spec fn ins(op: Seq<char>, operands: Seq<char>) -> LineV {
    code_line("    "@ + op + " "@ + operands)
}

pub open spec fn label_line(name: Seq<char>) -> LineV {
    code_line(name + ":"@)
}

/// The scratch register for expression depth `d`.
pub open spec fn temp_name(d: nat) -> Seq<char> {
    register_name(temp_pool()[d as int])
}

/// Two operands: `a, b`.
pub open spec fn two(a: Seq<char>, b: Seq<char>) -> Seq<char> {
    a + ", "@ + b
}

/// Three operands: `a, b, c`.
pub open spec fn three(a: Seq<char>, b: Seq<char>, c: Seq<char>) -> Seq<char> {
    a + ", "@ + b + ", "@ + c
}

/// The decimal text of a signed integer.
pub open spec fn int_text(n: i32) -> Seq<char> {
    if n < 0 {
        "-"@ + dec_seq((-(n as int)) as nat)
    } else {
        dec_seq(n as nat)
    }
}

/// The position of the first `v` in `data`.
pub open spec fn data_index(data: Seq<Seq<char>>, v: Seq<char>) -> Option<nat>
    decreases data.len(),
{
    if data.len() == 0 {
        None
    } else if data[0] == v {
        Some(0)
    } else {
        match data_index(data.drop_first(), v) {
            Some(k) => Some(k + 1),
            None => None,
        }
    }
}

/// The instruction that combines two values with an operator.
pub open spec fn operator_op(op: BinaryOperator) -> Seq<char> {
    match op {
        BinaryOperator::Add => "add"@,
        BinaryOperator::Subtract => "sub"@,
        BinaryOperator::LessThan => "slt"@,
        BinaryOperator::GreaterThan => "sgt"@,
        BinaryOperator::LessEqual => "sle"@,
        BinaryOperator::GreaterEqual => "sge"@,
        BinaryOperator::Equal => "seq"@,
        BinaryOperator::NotEqual => "sne"@,
        BinaryOperator::Empty => "move"@,
    }
}

pub open spec fn arg_register_name(i: nat) -> Seq<char> {
    if i == 0 { "$a0"@ } else if i == 1 { "$a1"@ } else if i == 2 { "$a2"@ } else { "$a3"@ }
}

/// Code that leaves the value of `e` in the scratch register of depth `d`, using deeper
/// registers for its parts; none when a name is unbound, a literal is not in the data segment,
/// the scratch registers run out, or a call has more than four arguments.
pub open spec fn expr_code(e: ExprV, d: nat, sc: Scope) -> Option<Seq<LineV>>
    decreases e,
{
    if d >= 8 {
        None
    } else {
        let r = temp_name(d);
        match e {
            ExprV::Integer(n) => Some(seq![ins("li"@, two(r, int_text(n)))]),
            ExprV::BoolLiteral(b) => Some(seq![ins("li"@, two(r, if b { "1"@ } else { "0"@ }))]),
            ExprV::Empty => Some(seq![ins("li"@, two(r, "0"@))]),
            ExprV::Identifier(x) => match lookup(sc.stack, x) {
                Some(off) => Some(seq![ins("lw"@, two(r, stack_operand(off)))]),
                None => match lookup(sc.args, x) {
                    Some(a) => Some(seq![ins("move"@, two(r, register_name(a)))]),
                    None => None,
                },
            },
            ExprV::StringLiteral(v) => match data_index(sc.data, v) {
                Some(k) => Some(seq![ins("la"@, two(r, data_label(k)))]),
                None => None,
            },
            ExprV::BinaryOp { left, operator, right, is_not } => match expr_code(*left, d, sc) {
                Some(lc) => {
                    let combined = if operator == BinaryOperator::Empty {
                        Some(lc)
                    } else if operator == BinaryOperator::Equal && *right == ExprV::Empty {
                        Some(lc.push(ins("sne"@, three(r, r, "$zero"@))))
                    } else {
                        match expr_code(*right, d + 1, sc) {
                            Some(rc) => Some(
                                lc + rc + seq![ins(operator_op(operator), three(r, r, temp_name(d + 1)))],
                            ),
                            None => None,
                        }
                    };
                    match combined {
                        Some(c) => Some(
                            if is_not {
                                c.push(ins("seq"@, three(r, r, "$zero"@)))
                            } else {
                                c
                            },
                        ),
                        None => None,
                    }
                },
                None => None,
            },
            ExprV::FunctionCall { function_name, arguments } => if arguments.len() > 4 {
                None
            } else {
                match args_code(arguments, d, sc) {
                    Some(ac) => Some(
                        ac + seq![ins("jal"@, function_name), ins("move"@, two(r, "$v0"@))],
                    ),
                    None => None,
                }
            },
        }
    }
}

/// Each argument evaluated at depth `d` and moved to its argument register, in order.
pub open spec fn args_code(args: Seq<ExprV>, d: nat, sc: Scope) -> Option<Seq<LineV>>
    decreases args,
{
    if args.len() == 0 {
        Some(seq![])
    } else {
        match args_code(args.drop_last(), d, sc) {
            Some(pre) => match expr_code(args.last(), d, sc) {
                Some(c) => Some(
                    pre + c + seq![ins("move"@, two(arg_register_name((args.len() - 1) as nat), temp_name(d)))],
                ),
                None => None,
            },
            None => None,
        }
    }
}

/// `lines`, after a comment line when comments are asked for.
pub open spec fn noted(cmt: bool, text: Seq<char>, lines: Seq<LineV>) -> Seq<LineV> {
    if cmt {
        seq![comment_line(text)] + lines
    } else {
        lines
    }
}

/// Stores the value of depth 0 into the variable `x`.
pub open spec fn store_code(x: Seq<char>, sc: Scope) -> Option<LineV> {
    match lookup(sc.stack, x) {
        Some(off) => Some(ins("sw"@, two(temp_name(0), stack_operand(off)))),
        None => match lookup(sc.args, x) {
            Some(a) => Some(ins("move"@, two(register_name(a), temp_name(0)))),
            None => None,
        },
    }
}

/// Restores the return address from the frame's bottom word and the stack pointer, then
/// returns.
pub open spec fn epilogue(frame: usize) -> Seq<LineV> {
    if frame < 4 {
        seq![ins("jr"@, "$ra"@)]
    } else {
        seq![
            ins("lw"@, two("$ra"@, stack_operand(0))),
            ins("addi"@, three("$sp"@, "$sp"@, dec_seq(frame as nat))),
            ins("jr"@, "$ra"@),
        ]
    }
}

/// Reserves the frame and saves the return address in its bottom word; variables fill the
/// frame from the top down.
pub open spec fn prologue(frame: usize) -> Seq<LineV> {
    seq![
        ins("addi"@, three("$sp"@, "$sp"@, "-"@ + dec_seq(frame as nat))),
        ins("sw"@, two("$ra"@, stack_operand(0))),
    ]
}

/// Prints each argument with the system call `service`, keeping `$a0` intact.
pub open spec fn print_code(args: Seq<ExprV>, service: Seq<char>, sc: Scope) -> Option<Seq<LineV>>
    decreases args.len(),
{
    if args.len() == 0 {
        Some(seq![])
    } else {
        match print_code(args.drop_last(), service, sc) {
            Some(pre) => match expr_code(args.last(), 0, sc) {
                Some(c) => Some(
                    pre + c + seq![
                        ins("move"@, two("$t8"@, "$a0"@)),
                        ins("move"@, two("$a0"@, temp_name(0))),
                        ins("li"@, two("$v0"@, service)),
                        code_line("    syscall"@),
                        ins("move"@, two("$a0"@, "$t8"@)),
                    ],
                ),
                None => None,
            },
            None => None,
        }
    }
}

/// Operands separated by commas.
pub open spec fn joined(ops: Seq<Seq<char>>) -> Seq<char>
    decreases ops.len(),
{
    if ops.len() == 0 {
        seq![]
    } else if ops.len() == 1 {
        ops[0]
    } else {
        joined(ops.drop_last()) + ", "@ + ops.last()
    }
}

/// The code of one statement of a function body and the scope after it; none for what cannot
/// be lowered (see `expr_code`), a variable beyond the frame, or a nested function.
pub open spec fn stmt_code(s: StatementV, sc: Scope, cmt: bool) -> Option<(Seq<LineV>, Scope)>
    decreases s,
{
    match s {
        StatementV::VariableDeclaration { identifier, operation, .. } => if 4 * (sc.stack.len() + 1)
            > sc.frame {
            None
        } else {
            let off = (sc.frame - 4 * (sc.stack.len() + 1)) as usize;
            match expr_code(operation, 0, sc) {
                Some(c) => Some(
                    (
                        noted(
                            cmt,
                            "declare "@ + identifier,
                            c.push(ins("sw"@, two(temp_name(0), stack_operand(off)))),
                        ),
                        Scope { stack: bind(sc.stack, identifier, off), ..sc },
                    ),
                ),
                None => None,
            }
        },
        StatementV::VariableAssignment { identifier, operation } => match expr_code(operation, 0, sc) {
            Some(c) => match store_code(identifier, sc) {
                Some(st) => Some((noted(cmt, "assign "@ + identifier, c.push(st)), sc)),
                None => None,
            },
            None => None,
        },
        StatementV::Return { value } => {
            let vc = if value == ExprV::Empty {
                Some(Seq::<LineV>::empty())
            } else {
                match expr_code(value, 0, sc) {
                    Some(c) => Some(c.push(ins("move"@, two("$v0"@, temp_name(0))))),
                    None => None,
                }
            };
            match vc {
                Some(c) => Some((noted(cmt, "return"@, c + epilogue(sc.frame)), sc)),
                None => None,
            }
        },
        StatementV::ExprStatement(e) => match expr_code(e, 0, sc) {
            Some(c) => Some((noted(cmt, "expression"@, c), sc)),
            None => None,
        },
        StatementV::FunctionCall { function_name, arguments } => match expr_code(
            ExprV::FunctionCall { function_name, arguments },
            0,
            sc,
        ) {
            Some(c) => Some((noted(cmt, "call "@ + function_name, c), sc)),
            None => None,
        },
        StatementV::BuiltinFunctionCall { function_type, arguments } => {
            let service = if function_type == BuiltinFunctionType::IntegerPrint {
                "1"@
            } else {
                "4"@
            };
            match print_code(arguments, service, sc) {
                Some(c) => Some((noted(cmt, "print"@, c), sc)),
                None => None,
            }
        },
        StatementV::While { body_label, end_label, condition, body } => match expr_code(condition, 0, sc) {
            Some(cc) => match body_code(body, sc, cmt) {
                Some((bc, sc2)) => Some(
                    (
                        noted(
                            cmt,
                            "while"@,
                            seq![label_line(body_label)] + cc + seq![
                                ins("beq"@, three(temp_name(0), "$zero"@, end_label)),
                            ] + bc + seq![ins("j"@, body_label), label_line(end_label)],
                        ),
                        sc2,
                    ),
                ),
                None => None,
            },
            None => None,
        },
        StatementV::For { init, body_label, end_label, condition, var_change, body } => match stmt_code(
            *init,
            sc,
            cmt,
        ) {
            Some((ic, sc1)) => match expr_code(condition, 0, sc1) {
                Some(cc) => match body_code(body, sc1, cmt) {
                    Some((bc, sc2)) => match stmt_code(*var_change, sc2, cmt) {
                        Some((vc, sc3)) => Some(
                            (
                                noted(
                                    cmt,
                                    "for"@,
                                    ic + seq![label_line(body_label)] + cc + seq![
                                        ins("beq"@, three(temp_name(0), "$zero"@, end_label)),
                                    ] + bc + vc + seq![ins("j"@, body_label), label_line(end_label)],
                                ),
                                sc3,
                            ),
                        ),
                        None => None,
                    },
                    None => None,
                },
                None => None,
            },
            None => None,
        },
        StatementV::If { label, condition, body } => match expr_code(condition, 0, sc) {
            Some(cc) => match body_code(body, sc, cmt) {
                Some((bc, sc2)) => Some(
                    (
                        noted(
                            cmt,
                            "if"@,
                            cc + seq![ins("bne"@, three(temp_name(0), "$zero"@, label))] + bc + seq![
                                label_line(label),
                            ],
                        ),
                        sc2,
                    ),
                ),
                None => None,
            },
            None => None,
        },
        StatementV::Instruction { opcode, operands } => Some(
            (
                seq![
                    code_line(
                        if operands.len() == 0 {
                            "    "@ + opcode
                        } else {
                            "    "@ + opcode + " "@ + joined(operands)
                        },
                    ),
                ],
                sc,
            ),
        ),
        _ => None,
    }
}

/// The code of a statement list, in order, threading the scope.
pub open spec fn body_code(ss: Seq<StatementV>, sc: Scope, cmt: bool) -> Option<(Seq<LineV>, Scope)>
    decreases ss,
{
    if ss.len() == 0 {
        Some((seq![], sc))
    } else {
        match body_code(ss.drop_last(), sc, cmt) {
            Some((pre, sc1)) => match stmt_code(ss.last(), sc1, cmt) {
                Some((c, sc2)) => Some((pre + c, sc2)),
                None => None,
            },
            None => None,
        }
    }
}

/// Parameters bound, in order, each to the first argument register that none holds.
pub open spec fn param_bindings(names: Seq<Seq<char>>) -> Option<Seq<(Seq<char>, Register)>>
    decreases names.len(),
{
    if names.len() == 0 {
        Some(seq![])
    } else {
        match param_bindings(names.drop_last()) {
            Some(b) => match first_free(argument_pool(), bound_registers(b)) {
                Some(r) => Some(bind(b, names.last(), r)),
                None => None,
            },
            None => None,
        }
    }
}

/// The epilogue that ends a function whose body does not end with a `return`.
pub open spec fn closing(body: Seq<StatementV>, frame: usize) -> Seq<LineV> {
    if ends_in_return(body) {
        seq![]
    } else {
        epilogue(frame)
    }
}

/// The frame of a function with `n` parameters and this body: a word per parameter, one for
/// the return address, and one per stack slot of the body.
pub open spec fn frame_bytes(n: nat, body: Seq<StatementV>) -> nat {
    4 * (n + 1) + 4 * decl_slots(body)
}

/// The code of a top-level function: its label, then, for a function with a frame, the
/// prologue, the body lowered with its parameters in argument registers, and the epilogue
/// when the body does not end with a `return`.
pub open spec fn function_code(f: StatementV, data: Seq<Seq<char>>, cmt: bool) -> Option<Seq<LineV>> {
    match f {
        StatementV::Function { name, params, body, use_stack, .. } => if !use_stack {
            match body_code(body, Scope { stack: seq![], args: seq![], frame: 0, data }, cmt) {
                Some((bc, _)) => Some(seq![label_line(name)] + bc),
                None => None,
            }
        } else if frame_bytes(params.len(), body) > usize::MAX {
            None
        } else {
            let frame = frame_bytes(params.len(), body) as usize;
            match param_bindings(param_names(params)) {
                Some(args) => match body_code(body, Scope { stack: seq![], args, frame, data }, cmt) {
                    Some((bc, _)) => Some(seq![label_line(name)] + prologue(frame) + bc + closing(body, frame)),
                    None => None,
                },
                None => None,
            }
        },
        _ => None,
    }
}

/// The code of the text segment's statements, which must all be functions.
pub open spec fn text_code(text: Seq<StatementV>, data: Seq<Seq<char>>, cmt: bool) -> Option<Seq<LineV>>
    decreases text.len(),
{
    if text.len() == 0 {
        Some(seq![])
    } else {
        match text_code(text.drop_last(), data, cmt) {
            Some(pre) => match function_code(text.last(), data, cmt) {
                Some(c) => Some(pre + c),
                None => None,
            },
            None => None,
        }
    }
}

/// One `.asciiz` directive per data declaration.
pub open spec fn data_code(data: Seq<StatementV>) -> Option<Seq<LineV>>
    decreases data.len(),
{
    if data.len() == 0 {
        Some(seq![])
    } else {
        match (data_code(data.drop_last()), data.last()) {
            (Some(pre), StatementV::DataDeclaration { label, value, .. }) => Some(
                pre.push(code_line(label + ": .asciiz \""@ + value + "\""@)),
            ),
            _ => None,
        }
    }
}

/// The values of the data declarations.
pub open spec fn data_values(data: Seq<StatementV>) -> Seq<Seq<char>> {
    data.map_values(
        |d: StatementV|
            match d {
                StatementV::DataDeclaration { value, .. } => value,
                _ => seq![],
            },
    )
}

/// The assembly of a program: the data section, then the text section.
pub open spec fn program_code(data: Seq<StatementV>, text: Seq<StatementV>, cmt: bool) -> Option<
    Seq<LineV>,
> {
    match (data_code(data), text_code(text, data_values(data), cmt)) {
        (Some(dc), Some(tc)) => Some(seq![code_line(".data"@)] + dc + seq![code_line(".text"@)] + tc),
        _ => None,
    }
}

/// The text of a list of lines: each line ended by a newline.
pub open spec fn render(ts: Seq<Seq<char>>) -> Seq<char>
    decreases ts.len(),
{
    if ts.len() == 0 {
        seq![]
    } else {
        render(ts.drop_last()) + ts.last() + "\n"@
    }
}


/// The texts of lines.
pub open spec fn texts(lines: Seq<LineV>) -> Seq<Seq<char>> {
    lines.map_values(|l: LineV| l.1)
}

/// What a lowering step sees, read off the allocator and the data values.
pub open spec fn scope_of(a: Allocator, data: Seq<Seq<char>>) -> Scope {
    Scope { stack: a.stack_vars(), args: a.arguments(), frame: a.frame_size(), data }
}

/// `later` has the same bindings and frame as `a`.
pub open spec fn same_bindings(a: Allocator, later: Allocator) -> bool {
    &&& later.stack_vars() == a.stack_vars()
    &&& later.arguments() == a.arguments()
    &&& later.frame_size() == a.frame_size()
}

proof fn lemma_pool_prefix(d: nat)
    requires
        d <= 8,
    ensures
        d < 8 ==> first_free(temp_pool(), temp_pool().subrange(0, d as int)) == Some(temp_pool()[d as int]),
        d == 8 ==> first_free(temp_pool(), temp_pool().subrange(0, d as int)) is None,
        d < 8 ==> without(temp_pool().subrange(0, d + 1 as int), temp_pool()[d as int]) == temp_pool().subrange(
            0,
            d as int,
        ),
        d < 8 ==> temp_pool().subrange(0, d as int).push(temp_pool()[d as int]) == temp_pool().subrange(
            0,
            d + 1 as int,
        ),
{
    let pool = temp_pool();
    let used = pool.subrange(0, d as int);
    assert forall|j: int| 0 <= j < d implies used.contains(#[trigger] pool[j]) by {
        assert(used[j] == pool[j]);
    }
    crate::allocator::lemma_first_free_skip(pool, used, d as int);
    if d < 8 {
        assert(!used.contains(pool[d as int])) by {
            if used.contains(pool[d as int]) {
                let j = choose|j: int| 0 <= j < used.len() && used[j] == pool[d as int];
                assert(pool[j] == used[j]);
            }
        }
        assert(pool.subrange(d as int, 8)[0] == pool[d as int]);
        let u1 = pool.subrange(0, d + 1 as int);
        assert forall|j: int| 0 <= j < d implies u1[j] != pool[d as int] by {
            assert(u1[j] == pool[j]);
        }
        crate::allocator::lemma_without_at(u1, pool[d as int], d as int);
        assert(u1.remove(d as int) =~= used);
        assert(used.push(pool[d as int]) =~= u1);
    } else {
        assert(pool.subrange(8, 8).len() == 0);
    }
}

/// Appends a line to the output.
fn emit(out: &mut Vec<String>, line: String, Ghost(l): Ghost<LineV>)
    requires
        line@ == l.1,
    ensures
        strings_view(final(out)@) == strings_view(old(out)@).push(l.1),
{
    out.push(line);
    proof {
        assert(strings_view(final(out)@) =~= strings_view(old(out)@).push(l.1));
    }
}

fn cat(a: &str, b: &str) -> (r: String)
    ensures
        r@ == a@ + b@,
{
    let mut r = String::from_str(a);
    r.append(b);
    r
}

fn two_text(a: &str, b: &str) -> (r: String)
    ensures
        r@ == two(a@, b@),
{
    let mut r = String::from_str(a);
    r.append(", ");
    r.append(b);
    r
}

fn three_text(a: &str, b: &str, c: &str) -> (r: String)
    ensures
        r@ == three(a@, b@, c@),
{
    let mut r = String::from_str(a);
    r.append(", ");
    r.append(b);
    r.append(", ");
    r.append(c);
    r
}

fn ins_text(op: &str, operands: &str) -> (r: String)
    ensures
        r@ == ins(op@, operands@).1,
{
    let mut r = String::from_str("    ");
    r.append(op);
    r.append(" ");
    r.append(operands);
    r
}

fn int_string(n: i32) -> (r: String)
    ensures
        r@ == int_text(n),
{
    if n < 0 {
        let m: i64 = -(n as i64);
        let digits = decimal_string(m as usize);
        cat("-", digits.as_str())
    } else {
        decimal_string(n as usize)
    }
}

fn stack_operand_text(offset: usize) -> (r: String)
    ensures
        r@ == stack_operand(offset),
{
    let digits = decimal_string(offset);
    cat(digits.as_str(), "($sp)")
}

fn arg_register_text(i: usize) -> (r: &'static str)
    ensures
        r@ == arg_register_name(i as nat),
{
    if i == 0 { "$a0" } else if i == 1 { "$a1" } else if i == 2 { "$a2" } else { "$a3" }
}

fn operator_text(op: BinaryOperator) -> (r: &'static str)
    ensures
        r@ == operator_op(op),
{
    match op {
        BinaryOperator::Add => "add",
        BinaryOperator::Subtract => "sub",
        BinaryOperator::LessThan => "slt",
        BinaryOperator::GreaterThan => "sgt",
        BinaryOperator::LessEqual => "sle",
        BinaryOperator::GreaterEqual => "sge",
        BinaryOperator::Equal => "seq",
        BinaryOperator::NotEqual => "sne",
        BinaryOperator::Empty => "move",
    }
}

proof fn lemma_data_index_found(data: Seq<Seq<char>>, v: Seq<char>, i: int)
    requires
        0 <= i < data.len(),
        data[i] == v,
        forall|j: int| 0 <= j < i ==> data[j] != v,
    ensures
        data_index(data, v) == Some(i as nat),
    decreases i,
{
    if i > 0 {
        lemma_data_index_found(data.drop_first(), v, i - 1);
    }
}

proof fn lemma_data_index_missing(data: Seq<Seq<char>>, v: Seq<char>)
    requires
        forall|j: int| 0 <= j < data.len() ==> data[j] != v,
    ensures
        data_index(data, v) is None,
    decreases data.len(),
{
    if data.len() > 0 {
        lemma_data_index_missing(data.drop_first(), v);
    }
}

/// The position of the first value equal to `v`.
fn find_data(data: &Vec<String>, v: &String) -> (r: Option<usize>)
    ensures
        match r {
            Some(k) => data_index(strings_view(data@), v@) == Some(k as nat),
            None => data_index(strings_view(data@), v@) is None,
        },
{
    let ghost dv = strings_view(data@);
    let mut i: usize = 0;
    while i < data.len()
        invariant
            i <= data@.len(),
            dv == strings_view(data@),
            forall|j: int| 0 <= j < i ==> dv[j] != v@,
        decreases data@.len() - i,
    {
        if data[i] == *v {
            proof {
                lemma_data_index_found(dv, v@, i as int);
            }
            return Some(i);
        }
        i = i + 1;
    }
    proof {
        lemma_data_index_missing(dv, v@);
    }
    None
}

fn codegen_error(what: &str) -> (e: CompileError)
    ensures
        e is CodeGenError,
{
    CompileError::CodeGenError { message: String::from_str(what), line: 0 }
}

/// Emits code that leaves the value of `e` in the scratch register of depth `d`, which it
/// leases.
fn gen_expr(
    e: &Expr,
    d: usize,
    alloc: &mut Allocator,
    data: &Vec<String>,
    out: &mut Vec<String>,
) -> (r: Result<(), CompileError>)
    requires
        d <= 8,
        old(alloc).used() == temp_pool().subrange(0, d as int),
    ensures
        same_bindings(*old(alloc), *final(alloc)),
        match expr_code(e.view(), d as nat, scope_of(*old(alloc), strings_view(data@))) {
            Some(lines) => r is Ok && strings_view(final(out)@) == strings_view(old(out)@) + texts(lines)
                && final(alloc).used() == temp_pool().subrange(0, d + 1),
            None => r is Err,
        },
    decreases e,
{
    let ghost sc = scope_of(*alloc, strings_view(data@));
    if d >= 8 {
        return Err(codegen_error("out of scratch registers"));
    }
    proof {
        lemma_pool_prefix(d as nat);
        reveal_with_fuel(Expr::view, 2);
    }
    match e {
        Expr::BinaryOp { left, operator, right, is_not } => {
            match gen_expr(left, d, alloc, data, out) {
                Ok(()) => {},
                Err(err) => {
                    return Err(err);
                },
            }
            let reg = temp_pool_register(d);
            let r = reg.name();
            let ghost lc = expr_code(left.view(), d as nat, sc)->0;
            if *operator == BinaryOperator::Empty {
            } else if *operator == BinaryOperator::Equal && matches!(**right, Expr::Empty) {
                let l = ins_text("sne", three_text(r.as_str(), r.as_str(), "$zero").as_str());
                emit(out, l, Ghost(ins("sne"@, three(r@, r@, "$zero"@))));
                proof {
                    assert(texts(lc.push(ins("sne"@, three(r@, r@, "$zero"@)))) =~= texts(lc).push(
                        ins("sne"@, three(r@, r@, "$zero"@)).1,
                    ));
                }
            } else {
                proof {
                    lemma_pool_prefix((d + 1) as nat);
                }
                match gen_expr(right, d + 1, alloc, data, out) {
                    Ok(()) => {},
                    Err(err) => {
                        return Err(err);
                    },
                }
                let r2 = temp_pool_register(d + 1).name();
                let opl = ins_text(operator_text(*operator), three_text(r.as_str(), r.as_str(), r2.as_str()).as_str());
                let ghost oline = ins(operator_op(*operator), three(r@, r@, r2@));
                let ghost rc = expr_code(right.view(), (d + 1) as nat, sc)->0;
                emit(out, opl, Ghost(oline));
                proof {
                    assert(texts(lc + rc + seq![oline]) =~= texts(lc) + texts(rc) + seq![oline.1]);
                }
                alloc.free_temp(temp_pool_register(d + 1));
            }
            if *is_not {
                let nl = ins_text("seq", three_text(r.as_str(), r.as_str(), "$zero").as_str());
                let ghost nline = ins("seq"@, three(r@, r@, "$zero"@));
                emit(out, nl, Ghost(nline));
                proof {
                    let c = if *operator == BinaryOperator::Empty {
                        lc
                    } else if *operator == BinaryOperator::Equal && right.view() == ExprV::Empty {
                        lc.push(ins("sne"@, three(r@, r@, "$zero"@)))
                    } else {
                        lc + expr_code(right.view(), (d + 1) as nat, sc)->0 + seq![
                            ins(operator_op(*operator), three(r@, r@, temp_name((d + 1) as nat))),
                        ]
                    };
                    assert(texts(c.push(nline)) =~= texts(c).push(nline.1));
                }
            }
            Ok(())
        },
        Expr::FunctionCall { function_name, arguments } => gen_call(function_name, arguments, d, alloc, data, out),
        _ => gen_leaf(e, d, alloc, data, out),
    }
}

/// Emits code that loads a literal or a variable into the scratch register of depth `d`.
fn gen_leaf(
    e: &Expr,
    d: usize,
    alloc: &mut Allocator,
    data: &Vec<String>,
    out: &mut Vec<String>,
) -> (r: Result<(), CompileError>)
    requires
        d < 8,
        old(alloc).used() == temp_pool().subrange(0, d as int),
        !(e is BinaryOp),
        !(e is FunctionCall),
    ensures
        same_bindings(*old(alloc), *final(alloc)),
        match expr_code(e.view(), d as nat, scope_of(*old(alloc), strings_view(data@))) {
            Some(lines) => r is Ok && strings_view(final(out)@) == strings_view(old(out)@) + texts(lines)
                && final(alloc).used() == temp_pool().subrange(0, d + 1),
            None => r is Err,
        },
{
    proof {
        lemma_pool_prefix(d as nat);
    }
    let reg = match alloc.allocate_temp() {
        Some(reg) => reg,
        None => {
            return Err(codegen_error("out of scratch registers"));
        },
    };
    let r = reg.name();
    let ghost line: LineV;
    let text = match e {
        Expr::Integer(n) => {
            let v = int_string(*n);
            proof {
                line = ins("li"@, two(r@, int_text(*n)));
            }
            ins_text("li", two_text(r.as_str(), v.as_str()).as_str())
        },
        Expr::BoolLiteral(b) => {
            let v = if *b { "1" } else { "0" };
            proof {
                line = ins("li"@, two(r@, v@));
            }
            ins_text("li", two_text(r.as_str(), v).as_str())
        },
        Expr::Identifier(x) => {
            match alloc.get_stack_variable_offset(x.as_str()) {
                Some(off) => {
                    let o = stack_operand_text(off);
                    proof {
                        line = ins("lw"@, two(r@, stack_operand(off)));
                    }
                    ins_text("lw", two_text(r.as_str(), o.as_str()).as_str())
                },
                None => match alloc.get_argument_register(x.as_str()) {
                    Ok(a) => {
                        proof {
                            line = ins("move"@, two(r@, a@));
                        }
                        ins_text("move", two_text(r.as_str(), a.as_str()).as_str())
                    },
                    Err(err) => {
                        return Err(err);
                    },
                },
            }
        },
        Expr::StringLiteral(v) => match find_data(data, v) {
            Some(k) => {
                let digits = decimal_string(k);
                let lab = cat("str_", digits.as_str());
                proof {
                    line = ins("la"@, two(r@, data_label(k as nat)));
                }
                ins_text("la", two_text(r.as_str(), lab.as_str()).as_str())
            },
            None => {
                return Err(codegen_error("string literal missing from the data segment"));
            },
        },
        _ => {
            proof {
                line = ins("li"@, two(r@, "0"@));
            }
            ins_text("li", two_text(r.as_str(), "0").as_str())
        },
    };
    emit(out, text, Ghost(line));
    proof {
        assert(texts(seq![line]) =~= seq![line.1]);
    }
    Ok(())
}

/// The scratch register of depth `d`.
fn temp_pool_register(d: usize) -> (r: Register)
    requires
        d < 8,
    ensures
        r == temp_pool()[d as int],
{
    if d == 0 {
        Register::T0
    } else if d == 1 {
        Register::T1
    } else if d == 2 {
        Register::T2
    } else if d == 3 {
        Register::T3
    } else if d == 4 {
        Register::T4
    } else if d == 5 {
        Register::T5
    } else if d == 6 {
        Register::T6
    } else {
        Register::T7
    }
}

/// A call: each argument evaluated at depth `d` and moved to its argument register, then the
/// jump and link, and the result moved to the scratch register of depth `d`.
fn gen_call(
    function_name: &String,
    arguments: &Vec<Argument>,
    d: usize,
    alloc: &mut Allocator,
    data: &Vec<String>,
    out: &mut Vec<String>,
) -> (r: Result<(), CompileError>)
    requires
        d < 8,
        old(alloc).used() == temp_pool().subrange(0, d as int),
    ensures
        same_bindings(*old(alloc), *final(alloc)),
        match expr_code(
            ExprV::FunctionCall { function_name: function_name@, arguments: args_view(arguments@) },
            d as nat,
            scope_of(*old(alloc), strings_view(data@)),
        ) {
            Some(lines) => r is Ok && strings_view(final(out)@) == strings_view(old(out)@) + texts(lines)
                && final(alloc).used() == temp_pool().subrange(0, d + 1),
            None => r is Err,
        },
    decreases arguments@,
{
    let ghost sc = scope_of(*alloc, strings_view(data@));
    let ghost av = args_view(arguments@);
    proof {
        crate::ast::lemma_args_view_len(arguments@);
        lemma_pool_prefix(d as nat);
    }
    if arguments.len() > 4 {
        return Err(codegen_error("a call takes at most four arguments"));
    }
    let ghost start = strings_view(out@);
    let reg = temp_pool_register(d);
    let r = reg.name();
    let mut i: usize = 0;
    proof {
        assert(av.subrange(0, 0) =~= Seq::<ExprV>::empty());
        assert(start + texts(Seq::<LineV>::empty()) =~= start);
    }
    while i < arguments.len()
        invariant
            i <= arguments@.len() <= 4,
            d < 8,
            reg == temp_pool()[d as int],
            r@ == temp_name(d as nat),
            av == args_view(arguments@),
            av.len() == arguments@.len(),
            forall|k: int| 0 <= k < arguments@.len() ==> #[trigger] av[k] == arguments@[k].expr.view(),
            alloc.used() == temp_pool().subrange(0, d as int),
            same_bindings(*old(alloc), *alloc),
            sc == scope_of(*old(alloc), strings_view(data@)),
            start == strings_view(old(out)@),
            args_code(av.subrange(0, i as int), d as nat, sc) is Some,
            strings_view(out@) == start + texts(args_code(av.subrange(0, i as int), d as nat, sc)->0),
        decreases arguments@.len() - i,
    {
        let ghost pre = args_code(av.subrange(0, i as int), d as nat, sc)->0;
        proof {
            assert(av.subrange(0, i + 1).drop_last() =~= av.subrange(0, i as int));
            assert(av.subrange(0, i + 1).last() == arguments@[i as int].expr.view());
            assert(decreases_to!(arguments@ => arguments@[i as int]));
        }
        match gen_expr(&arguments[i].expr, d, alloc, data, out) {
            Ok(()) => {},
            Err(err) => {
                proof {
                    lemma_args_code_prefix_fails(av, i + 1, d as nat, sc);
                    assert(av.subrange(0, av.len() as int) =~= av);
                }
                return Err(err);
            },
        }
        let ghost c = expr_code(arguments@[i as int].expr.view(), d as nat, sc)->0;
        let a = arg_register_text(i);
        let ml = ins_text("move", two_text(a, r.as_str()).as_str());
        let ghost mline = ins("move"@, two(arg_register_name(i as nat), temp_name(d as nat)));
        emit(out, ml, Ghost(mline));
        proof {
            lemma_pool_prefix(d as nat);
        }
        alloc.free_temp(reg);
        proof {
            assert(texts(pre + c + seq![mline]) =~= texts(pre) + texts(c) + seq![mline.1]);
        }
        i = i + 1;
    }
    proof {
        assert(av.subrange(0, av.len() as int) =~= av);
    }
    let ghost ac = args_code(av, d as nat, sc)->0;
    match alloc.allocate_temp() {
        Some(_) => {},
        None => {
            return Err(codegen_error("out of scratch registers"));
        },
    }
    let jl = ins_text("jal", function_name.as_str());
    let ghost jline = ins("jal"@, function_name@);
    emit(out, jl, Ghost(jline));
    let vl = ins_text("move", two_text(r.as_str(), "$v0").as_str());
    let ghost vline = ins("move"@, two(temp_name(d as nat), "$v0"@));
    emit(out, vl, Ghost(vline));
    proof {
        assert(texts(ac + seq![jline, vline]) =~= texts(ac) + seq![jline.1, vline.1]);
    }
    Ok(())
}

proof fn lemma_args_code_prefix_fails(av: Seq<ExprV>, i: int, d: nat, sc: Scope)
    requires
        0 <= i <= av.len(),
        args_code(av.subrange(0, i), d, sc) is None,
    ensures
        args_code(av, d, sc) is None,
    decreases av.len() - i,
{
    if i < av.len() {
        assert(av.subrange(0, i + 1).drop_last() =~= av.subrange(0, i));
        lemma_args_code_prefix_fails(av, i + 1, d, sc);
    } else {
        assert(av.subrange(0, i) =~= av);
    }
}

/// The code of a successful lowering step.
pub open spec fn code_of(r: Option<(Seq<LineV>, Scope)>) -> Seq<LineV> {
    match r {
        Some((c, _)) => c,
        None => seq![],
    }
}

/// The scope after a successful lowering step.
pub open spec fn scope_after(r: Option<(Seq<LineV>, Scope)>) -> Scope {
    match r {
        Some((_, sc)) => sc,
        None => Scope { stack: seq![], args: seq![], frame: 0, data: seq![] },
    }
}

pub open spec fn note_texts(cmt: bool, text: Seq<char>) -> Seq<Seq<char>> {
    if cmt {
        seq![comment_line(text).1]
    } else {
        seq![]
    }
}

proof fn lemma_texts_add(a: Seq<LineV>, b: Seq<LineV>)
    ensures
        texts(a + b) == texts(a) + texts(b),
{
    assert(texts(a + b) =~= texts(a) + texts(b));
}

proof fn lemma_texts_noted(cmt: bool, text: Seq<char>, lines: Seq<LineV>)
    ensures
        texts(noted(cmt, text, lines)) == note_texts(cmt, text) + texts(lines),
{
    lemma_texts_add(seq![comment_line(text)], lines);
    assert(texts(seq![comment_line(text)]) =~= seq![comment_line(text).1]);
    assert(Seq::<Seq<char>>::empty() + texts(lines) =~= texts(lines));
}

/// Emits the comment line for a statement, when comments are asked for.
fn emit_note(cmt: bool, text: String, out: &mut Vec<String>)
    ensures
        strings_view(final(out)@) == strings_view(old(out)@) + note_texts(cmt, text@),
{
    if cmt {
        let line = cat("    # ", text.as_str());
        emit(out, line, Ghost(comment_line(text@)));
        proof {
            assert(strings_view(old(out)@).push(comment_line(text@).1) =~= strings_view(old(out)@)
                + note_texts(cmt, text@));
        }
    } else {
        proof {
            assert(strings_view(old(out)@) + note_texts(cmt, text@) =~= strings_view(old(out)@));
        }
    }
}

/// Emits `op operands` as one line.
fn emit_ins(out: &mut Vec<String>, op: &str, operands: &str)
    ensures
        strings_view(final(out)@) == strings_view(old(out)@).push(ins(op@, operands@).1),
{
    let l = ins_text(op, operands);
    emit(out, l, Ghost(ins(op@, operands@)));
}

/// Emits a label line.
fn emit_label(out: &mut Vec<String>, name: &str)
    ensures
        strings_view(final(out)@) == strings_view(old(out)@).push(label_line(name@).1),
{
    let l = cat(name, ":");
    emit(out, l, Ghost(label_line(name@)));
}

/// Emits the epilogue for a frame.
fn emit_epilogue(out: &mut Vec<String>, frame: usize)
    ensures
        strings_view(final(out)@) == strings_view(old(out)@) + texts(epilogue(frame)),
{
    if frame < 4 {
        emit_ins(out, "jr", "$ra");
        proof {
            assert(texts(epilogue(frame)) =~= seq![ins("jr"@, "$ra"@).1]);
        }
    } else {
        let slot = stack_operand_text(0);
        emit_ins(out, "lw", two_text("$ra", slot.as_str()).as_str());
        let size = decimal_string(frame);
        emit_ins(out, "addi", three_text("$sp", "$sp", size.as_str()).as_str());
        emit_ins(out, "jr", "$ra");
        proof {
            assert(texts(epilogue(frame)) =~= seq![
                ins("lw"@, two("$ra"@, stack_operand(0))).1,
                ins("addi"@, three("$sp"@, "$sp"@, dec_seq(frame as nat))).1,
                ins("jr"@, "$ra"@).1,
            ]);
        }
    }
    proof {
        assert(strings_view(final(out)@) =~= strings_view(old(out)@) + texts(epilogue(frame)));
    }
}

/// Releases the scratch register of depth 0.
fn release_first(alloc: &mut Allocator)
    requires
        old(alloc).used() == temp_pool().subrange(0, 1),
    ensures
        final(alloc).used() == Seq::<Register>::empty(),
        same_bindings(*old(alloc), *final(alloc)),
{
    proof {
        lemma_pool_prefix(0);
        assert(temp_pool().subrange(0, 0) =~= Seq::<Register>::empty());
    }
    alloc.free_temp(Register::T0);
}

proof fn lemma_no_temps()
    ensures
        temp_pool().subrange(0, 0) == Seq::<Register>::empty(),
        temp_name(0) == "$t0"@,
{
    assert(temp_pool().subrange(0, 0) =~= Seq::<Register>::empty());
}

proof fn lemma_body_code_prefix_fails(ss: Seq<StatementV>, i: int, sc: Scope, cmt: bool)
    requires
        0 <= i <= ss.len(),
        body_code(ss.subrange(0, i), sc, cmt) is None,
    ensures
        body_code(ss, sc, cmt) is None,
    decreases ss.len() - i,
{
    if i < ss.len() {
        assert(ss.subrange(0, i + 1).drop_last() =~= ss.subrange(0, i));
        lemma_body_code_prefix_fails(ss, i + 1, sc, cmt);
    } else {
        assert(ss.subrange(0, i) =~= ss);
    }
}

proof fn lemma_print_code_prefix_fails(av: Seq<ExprV>, i: int, service: Seq<char>, sc: Scope)
    requires
        0 <= i <= av.len(),
        print_code(av.subrange(0, i), service, sc) is None,
    ensures
        print_code(av, service, sc) is None,
    decreases av.len() - i,
{
    if i < av.len() {
        assert(av.subrange(0, i + 1).drop_last() =~= av.subrange(0, i));
        lemma_print_code_prefix_fails(av, i + 1, service, sc);
    } else {
        assert(av.subrange(0, i) =~= av);
    }
}

/// Emits the code of a statement list, in order.
fn gen_body(
    stmts: &[Statement],
    alloc: &mut Allocator,
    data: &Vec<String>,
    cmt: bool,
    out: &mut Vec<String>,
) -> (r: Result<(), CompileError>)
    requires
        old(alloc).used() == Seq::<Register>::empty(),
    ensures
        match body_code(
            crate::ast::stmts_view(stmts@),
            scope_of(*old(alloc), strings_view(data@)),
            cmt,
        ) {
            Some((lines, sc2)) => r is Ok && strings_view(final(out)@) == strings_view(old(out)@) + texts(lines)
                && scope_of(*final(alloc), strings_view(data@)) == sc2 && final(alloc).used() == Seq::<
                Register,
            >::empty(),
            None => r is Err,
        },
    decreases stmts@, 2int,
{
    let ghost sv = crate::ast::stmts_view(stmts@);
    let ghost sc0 = scope_of(*alloc, strings_view(data@));
    let ghost start = strings_view(out@);
    proof {
        crate::ast::lemma_stmts_view_len(stmts@);
        assert(sv.subrange(0, 0) =~= Seq::<StatementV>::empty());
        assert(start + texts(Seq::<LineV>::empty()) =~= start);
    }
    let mut i: usize = 0;
    while i < stmts.len()
        invariant
            i <= stmts@.len(),
            sv == crate::ast::stmts_view(stmts@),
            sv.len() == stmts@.len(),
            forall|k: int| 0 <= k < stmts@.len() ==> #[trigger] sv[k] == stmts@[k].view(),
            sc0 == scope_of(*old(alloc), strings_view(data@)),
            start == strings_view(old(out)@),
            alloc.used() == Seq::<Register>::empty(),
            body_code(sv.subrange(0, i as int), sc0, cmt) is Some,
            strings_view(out@) == start + texts(code_of(body_code(sv.subrange(0, i as int), sc0, cmt))),
            scope_of(*alloc, strings_view(data@)) == scope_after(body_code(sv.subrange(0, i as int), sc0, cmt)),
        decreases stmts@.len() - i,
    {
        let ghost pre = code_of(body_code(sv.subrange(0, i as int), sc0, cmt));
        proof {
            assert(sv.subrange(0, i + 1).drop_last() =~= sv.subrange(0, i as int));
            assert(sv.subrange(0, i + 1).last() == stmts@[i as int].view());
            assert(decreases_to!(stmts@ => stmts@[i as int]));
        }
        match gen_stmt(&stmts[i], alloc, data, cmt, out) {
            Ok(()) => {},
            Err(err) => {
                proof {
                    lemma_body_code_prefix_fails(sv, i + 1, sc0, cmt);
                    assert(sv.subrange(0, sv.len() as int) =~= sv);
                }
                return Err(err);
            },
        }
        proof {
            let c = code_of(stmt_code(stmts@[i as int].view(), scope_after(body_code(sv.subrange(0, i as int), sc0, cmt)), cmt));
            lemma_texts_add(pre, c);
        }
        i = i + 1;
    }
    proof {
        assert(sv.subrange(0, sv.len() as int) =~= sv);
    }
    Ok(())
}

/// Emits a variable declaration: its initializer stored in the next stack slot.
fn gen_declaration(
    s: &Statement,
    alloc: &mut Allocator,
    data: &Vec<String>,
    cmt: bool,
    out: &mut Vec<String>,
) -> (r: Result<(), CompileError>)
    requires
        old(alloc).used() == Seq::<Register>::empty(),
        s is VariableDeclaration,
    ensures
        match stmt_code(s.view(), scope_of(*old(alloc), strings_view(data@)), cmt) {
            Some((lines, sc2)) => r is Ok && strings_view(final(out)@) == strings_view(old(out)@) + texts(lines)
                && scope_of(*final(alloc), strings_view(data@)) == sc2 && final(alloc).used() == Seq::<
                Register,
            >::empty(),
            None => r is Err,
        },
{
    let ghost sc = scope_of(*alloc, strings_view(data@));
    let ghost start = strings_view(out@);
    proof {
        lemma_no_temps();
        reveal_with_fuel(Expr::view, 2);
    }
    match s {
        Statement::VariableDeclaration { identifier, operation, .. } => {
            let count = alloc.stack_variable_count();
            let frame = *alloc.get_stack_size();
            if count >= frame / 4 {
                proof {
                    assert(4 * (count + 1) > frame) by (nonlinear_arith)
                        requires
                            count >= frame / 4,
                    ;
                }
                return Err(codegen_error("the frame has no slot left for a variable"));
            }
            proof {
                assert(4 * (count + 1) <= frame) by (nonlinear_arith)
                    requires
                        count < frame / 4,
                ;
            }
            let off = frame - 4 * (count + 1);
            emit_note(cmt, cat("declare ", identifier.as_str()), out);
            match gen_expr(operation, 0, alloc, data, out) {
                Ok(()) => {},
                Err(err) => {
                    return Err(err);
                },
            }
            let o = stack_operand_text(off);
            emit_ins(out, "sw", two_text("$t0", o.as_str()).as_str());
            release_first(alloc);
            alloc.add_stack_variable(identifier.as_str());
            proof {
                let c = expr_code(operation.view(), 0, sc)->0;
                let line = ins("sw"@, two(temp_name(0), stack_operand(off)));
                lemma_texts_noted(cmt, "declare "@ + identifier@, c.push(line));
                assert(texts(c.push(line)) =~= texts(c).push(line.1));
                assert(strings_view(out@) =~= start + note_texts(cmt, "declare "@ + identifier@) + texts(c.push(line)));
            }
            Ok(())
        },
        _ => Err(codegen_error("only instructions and statements may stand in a function body")),
    }
}

/// Emits an assignment: the value stored where the variable lives.
fn gen_assignment(
    s: &Statement,
    alloc: &mut Allocator,
    data: &Vec<String>,
    cmt: bool,
    out: &mut Vec<String>,
) -> (r: Result<(), CompileError>)
    requires
        old(alloc).used() == Seq::<Register>::empty(),
        s is VariableAssignment,
    ensures
        match stmt_code(s.view(), scope_of(*old(alloc), strings_view(data@)), cmt) {
            Some((lines, sc2)) => r is Ok && strings_view(final(out)@) == strings_view(old(out)@) + texts(lines)
                && scope_of(*final(alloc), strings_view(data@)) == sc2 && final(alloc).used() == Seq::<
                Register,
            >::empty(),
            None => r is Err,
        },
{
    let ghost sc = scope_of(*alloc, strings_view(data@));
    let ghost start = strings_view(out@);
    proof {
        lemma_no_temps();
        reveal_with_fuel(Expr::view, 2);
    }
    match s {
        Statement::VariableAssignment { identifier, operation } => {
            emit_note(cmt, cat("assign ", identifier.as_str()), out);
            match gen_expr(operation, 0, alloc, data, out) {
                Ok(()) => {},
                Err(err) => {
                    return Err(err);
                },
            }
            let ghost line: LineV;
            match alloc.get_stack_variable_offset(identifier.as_str()) {
                Some(off) => {
                    let o = stack_operand_text(off);
                    emit_ins(out, "sw", two_text("$t0", o.as_str()).as_str());
                    proof {
                        line = ins("sw"@, two(temp_name(0), stack_operand(off)));
                    }
                },
                None => match alloc.get_argument_register(identifier.as_str()) {
                    Ok(a) => {
                        emit_ins(out, "move", two_text(a.as_str(), "$t0").as_str());
                        proof {
                            line = ins("move"@, two(a@, temp_name(0)));
                        }
                    },
                    Err(err) => {
                        return Err(err);
                    },
                },
            }
            release_first(alloc);
            proof {
                let c = expr_code(operation.view(), 0, sc)->0;
                lemma_texts_noted(cmt, "assign "@ + identifier@, c.push(line));
                assert(texts(c.push(line)) =~= texts(c).push(line.1));
                assert(strings_view(out@) =~= start + note_texts(cmt, "assign "@ + identifier@) + texts(c.push(line)));
            }
            Ok(())
        },
        _ => Err(codegen_error("only instructions and statements may stand in a function body")),
    }
}

/// Emits a return: the value moved to `$v0`, then the epilogue.
fn gen_return(
    s: &Statement,
    alloc: &mut Allocator,
    data: &Vec<String>,
    cmt: bool,
    out: &mut Vec<String>,
) -> (r: Result<(), CompileError>)
    requires
        old(alloc).used() == Seq::<Register>::empty(),
        s is Return,
    ensures
        match stmt_code(s.view(), scope_of(*old(alloc), strings_view(data@)), cmt) {
            Some((lines, sc2)) => r is Ok && strings_view(final(out)@) == strings_view(old(out)@) + texts(lines)
                && scope_of(*final(alloc), strings_view(data@)) == sc2 && final(alloc).used() == Seq::<
                Register,
            >::empty(),
            None => r is Err,
        },
{
    let ghost sc = scope_of(*alloc, strings_view(data@));
    let ghost start = strings_view(out@);
    proof {
        lemma_no_temps();
        reveal_with_fuel(Expr::view, 2);
    }
    match s {
        Statement::Return { value } => {
            emit_note(cmt, String::from_str("return"), out);
            let ghost vc: Seq<LineV>;
            if matches!(value, Expr::Empty) {
                proof {
                    vc = Seq::<LineV>::empty();
                }
            } else {
                match gen_expr(value, 0, alloc, data, out) {
                    Ok(()) => {},
                    Err(err) => {
                        return Err(err);
                    },
                }
                emit_ins(out, "move", "$v0, $t0");
                release_first(alloc);
                proof {
                    reveal_strlit("$v0, $t0");
                    reveal_strlit("$v0");
                    reveal_strlit(", ");
                    reveal_strlit("$t0");
                    assert("$v0, $t0"@ =~= two("$v0"@, temp_name(0)));
                    let line = ins("move"@, two("$v0"@, temp_name(0)));
                    let c = expr_code(value.view(), 0, sc)->0;
                    vc = c.push(line);
                    assert(texts(c.push(line)) =~= texts(c).push(line.1));
                }
            }
            let frame = *alloc.get_stack_size();
            emit_epilogue(out, frame);
            proof {
                lemma_texts_noted(cmt, "return"@, vc + epilogue(frame));
                lemma_texts_add(vc, epilogue(frame));
                assert(strings_view(out@) =~= start + note_texts(cmt, "return"@) + texts(vc + epilogue(frame)));
            }
            Ok(())
        },
        _ => Err(codegen_error("only instructions and statements may stand in a function body")),
    }
}

/// Emits a statement that holds no nested statements.
fn gen_simple(
    s: &Statement,
    alloc: &mut Allocator,
    data: &Vec<String>,
    cmt: bool,
    out: &mut Vec<String>,
) -> (r: Result<(), CompileError>)
    requires
        old(alloc).used() == Seq::<Register>::empty(),
        !(s is While) && !(s is If) && !(s is For),
    ensures
        match stmt_code(s.view(), scope_of(*old(alloc), strings_view(data@)), cmt) {
            Some((lines, sc2)) => r is Ok && strings_view(final(out)@) == strings_view(old(out)@) + texts(lines)
                && scope_of(*final(alloc), strings_view(data@)) == sc2 && final(alloc).used() == Seq::<
                Register,
            >::empty(),
            None => r is Err,
        },
{
    let ghost sc = scope_of(*alloc, strings_view(data@));
    let ghost start = strings_view(out@);
    proof {
        lemma_no_temps();
        reveal_with_fuel(Expr::view, 2);
    }
    match s {
        Statement::VariableDeclaration { .. } => gen_declaration(s, alloc, data, cmt, out),
        Statement::VariableAssignment { .. } => gen_assignment(s, alloc, data, cmt, out),
        Statement::Return { .. } => gen_return(s, alloc, data, cmt, out),
        Statement::ExprStatement(e) => {
            emit_note(cmt, String::from_str("expression"), out);
            match gen_expr(e, 0, alloc, data, out) {
                Ok(()) => {},
                Err(err) => {
                    return Err(err);
                },
            }
            release_first(alloc);
            proof {
                lemma_texts_noted(cmt, "expression"@, expr_code(e.view(), 0, sc)->0);
            }
            Ok(())
        },
        Statement::FunctionCall { function_name, arguments } => {
            emit_note(cmt, cat("call ", function_name.as_str()), out);
            match gen_call(function_name, arguments, 0, alloc, data, out) {
                Ok(()) => {},
                Err(err) => {
                    return Err(err);
                },
            }
            release_first(alloc);
            proof {
                lemma_texts_noted(
                    cmt,
                    "call "@ + function_name@,
                    expr_code(
                        ExprV::FunctionCall { function_name: function_name@, arguments: args_view(arguments@) },
                        0,
                        sc,
                    )->0,
                );
            }
            Ok(())
        },
        Statement::BuiltinFunctionCall { function_type, arguments } => {
            emit_note(cmt, String::from_str("print"), out);
            let service = match function_type {
                BuiltinFunctionType::IntegerPrint => "1",
                BuiltinFunctionType::StringPrint => "4",
            };
            match gen_print(arguments, service, alloc, data, out) {
                Ok(()) => {},
                Err(err) => {
                    return Err(err);
                },
            }
            proof {
                lemma_texts_noted(cmt, "print"@, print_code(args_view(arguments@), service@, sc)->0);
            }
            Ok(())
        },
        Statement::Instruction { opcode, operands } => {
            let mut line = cat("    ", opcode.as_str());
            if operands.len() > 0 {
                line.append(" ");
                let ops = join_operands(operands);
                line.append(ops.as_str());
            }
            let ghost l = code_line(line@);
            emit(out, line, Ghost(l));
            proof {
                assert(texts(seq![l]) =~= seq![l.1]);
            }
            Ok(())
        },
        _ => Err(codegen_error("only instructions and statements may stand in a function body")),
    }
}

/// Emits a `while` loop: test at the body label, exit to the end label.
fn gen_while(
    s: &Statement,
    alloc: &mut Allocator,
    data: &Vec<String>,
    cmt: bool,
    out: &mut Vec<String>,
) -> (r: Result<(), CompileError>)
    requires
        old(alloc).used() == Seq::<Register>::empty(),
        s is While,
    ensures
        match stmt_code(s.view(), scope_of(*old(alloc), strings_view(data@)), cmt) {
            Some((lines, sc2)) => r is Ok && strings_view(final(out)@) == strings_view(old(out)@) + texts(lines)
                && scope_of(*final(alloc), strings_view(data@)) == sc2 && final(alloc).used() == Seq::<
                Register,
            >::empty(),
            None => r is Err,
        },
    decreases s, 0int,
{
    let ghost sc = scope_of(*alloc, strings_view(data@));
    let ghost start = strings_view(out@);
    proof {
        lemma_no_temps();
        reveal_with_fuel(Expr::view, 2);
    }
    match s {
        Statement::While { body_label, end_label, condition, body } => {
            emit_note(cmt, String::from_str("while"), out);
            emit_label(out, body_label.as_str());
            match gen_expr(condition, 0, alloc, data, out) {
                Ok(()) => {},
                Err(err) => {
                    return Err(err);
                },
            }
            emit_ins(out, "beq", three_text("$t0", "$zero", end_label.as_str()).as_str());
            release_first(alloc);
            match gen_body(body.as_slice(), alloc, data, cmt, out) {
                Ok(()) => {},
                Err(err) => {
                    return Err(err);
                },
            }
            emit_ins(out, "j", body_label.as_str());
            emit_label(out, end_label.as_str());
            proof {
                let cc = expr_code(condition.view(), 0, sc)->0;
                let bc = code_of(body_code(crate::ast::stmts_view(body@), sc, cmt));
                let lines = seq![label_line(body_label@)] + cc + seq![
                    ins("beq"@, three(temp_name(0), "$zero"@, end_label@)),
                ] + bc + seq![ins("j"@, body_label@), label_line(end_label@)];
                lemma_texts_noted(cmt, "while"@, lines);
                lemma_texts_add(seq![label_line(body_label@)], cc);
                lemma_texts_add(seq![label_line(body_label@)] + cc, seq![ins("beq"@, three(temp_name(0), "$zero"@, end_label@))]);
                lemma_texts_add(seq![label_line(body_label@)] + cc + seq![ins("beq"@, three(temp_name(0), "$zero"@, end_label@))], bc);
                lemma_texts_add(seq![label_line(body_label@)] + cc + seq![ins("beq"@, three(temp_name(0), "$zero"@, end_label@))] + bc, seq![ins("j"@, body_label@), label_line(end_label@)]);
                assert(texts(seq![label_line(body_label@)]) =~= seq![label_line(body_label@).1]);
                assert(texts(seq![ins("beq"@, three(temp_name(0), "$zero"@, end_label@))]) =~= seq![ins("beq"@, three(temp_name(0), "$zero"@, end_label@)).1]);
                assert(texts(seq![ins("j"@, body_label@), label_line(end_label@)]) =~= seq![ins("j"@, body_label@).1, label_line(end_label@).1]);
                assert(strings_view(out@) =~= start + note_texts(cmt, "while"@) + texts(lines));
            }
            Ok(())
        },
        _ => Err(codegen_error("not a loop")),
    }
}

/// Emits an `if`: the body is skipped when the condition's value is not zero.
fn gen_if(
    s: &Statement,
    alloc: &mut Allocator,
    data: &Vec<String>,
    cmt: bool,
    out: &mut Vec<String>,
) -> (r: Result<(), CompileError>)
    requires
        old(alloc).used() == Seq::<Register>::empty(),
        s is If,
    ensures
        match stmt_code(s.view(), scope_of(*old(alloc), strings_view(data@)), cmt) {
            Some((lines, sc2)) => r is Ok && strings_view(final(out)@) == strings_view(old(out)@) + texts(lines)
                && scope_of(*final(alloc), strings_view(data@)) == sc2 && final(alloc).used() == Seq::<
                Register,
            >::empty(),
            None => r is Err,
        },
    decreases s, 0int,
{
    let ghost sc = scope_of(*alloc, strings_view(data@));
    let ghost start = strings_view(out@);
    proof {
        lemma_no_temps();
        reveal_with_fuel(Expr::view, 2);
    }
    match s {
        Statement::If { label, condition, body } => {
            emit_note(cmt, String::from_str("if"), out);
            match gen_expr(condition, 0, alloc, data, out) {
                Ok(()) => {},
                Err(err) => {
                    return Err(err);
                },
            }
            emit_ins(out, "bne", three_text("$t0", "$zero", label.as_str()).as_str());
            release_first(alloc);
            match gen_body(body.as_slice(), alloc, data, cmt, out) {
                Ok(()) => {},
                Err(err) => {
                    return Err(err);
                },
            }
            emit_label(out, label.as_str());
            proof {
                let cc = expr_code(condition.view(), 0, sc)->0;
                let bc = code_of(body_code(crate::ast::stmts_view(body@), sc, cmt));
                let bl = seq![ins("bne"@, three(temp_name(0), "$zero"@, label@))];
                let el = seq![label_line(label@)];
                let lines = cc + bl + bc + el;
                lemma_texts_noted(cmt, "if"@, lines);
                lemma_texts_add(cc, bl);
                lemma_texts_add(cc + bl, bc);
                lemma_texts_add(cc + bl + bc, el);
                assert(texts(bl) =~= seq![bl[0].1]);
                assert(texts(el) =~= seq![el[0].1]);
                assert(strings_view(out@) =~= start + note_texts(cmt, "if"@) + texts(lines));
            }
            Ok(())
        },
        _ => Err(codegen_error("not a loop")),
    }
}

/// Emits a `for` loop: the initializer, then a `while` loop whose body ends with the change.
#[verifier::rlimit(60)]
fn gen_for(
    s: &Statement,
    alloc: &mut Allocator,
    data: &Vec<String>,
    cmt: bool,
    out: &mut Vec<String>,
) -> (r: Result<(), CompileError>)
    requires
        old(alloc).used() == Seq::<Register>::empty(),
        s is For,
    ensures
        match stmt_code(s.view(), scope_of(*old(alloc), strings_view(data@)), cmt) {
            Some((lines, sc2)) => r is Ok && strings_view(final(out)@) == strings_view(old(out)@) + texts(lines)
                && scope_of(*final(alloc), strings_view(data@)) == sc2 && final(alloc).used() == Seq::<
                Register,
            >::empty(),
            None => r is Err,
        },
    decreases s, 0int,
{
    let ghost sc = scope_of(*alloc, strings_view(data@));
    let ghost start = strings_view(out@);
    proof {
        lemma_no_temps();
        reveal_with_fuel(Expr::view, 2);
    }
    match s {
        Statement::For { init, body_label, end_label, condition, var_change, body } => {
            emit_note(cmt, String::from_str("for"), out);
            match gen_stmt(init, alloc, data, cmt, out) {
                Ok(()) => {},
                Err(err) => {
                    return Err(err);
                },
            }
            let ghost sc1 = scope_of(*alloc, strings_view(data@));
            emit_label(out, body_label.as_str());
            match gen_expr(condition, 0, alloc, data, out) {
                Ok(()) => {},
                Err(err) => {
                    return Err(err);
                },
            }
            emit_ins(out, "beq", three_text("$t0", "$zero", end_label.as_str()).as_str());
            release_first(alloc);
            match gen_body(body.as_slice(), alloc, data, cmt, out) {
                Ok(()) => {},
                Err(err) => {
                    return Err(err);
                },
            }
            let ghost sc2 = scope_of(*alloc, strings_view(data@));
            match gen_stmt(var_change, alloc, data, cmt, out) {
                Ok(()) => {},
                Err(err) => {
                    return Err(err);
                },
            }
            emit_ins(out, "j", body_label.as_str());
            emit_label(out, end_label.as_str());
            proof {
                let ic = code_of(stmt_code(init.view(), sc, cmt));
                let cc = expr_code(condition.view(), 0, sc1)->0;
                let bc = code_of(body_code(crate::ast::stmts_view(body@), sc1, cmt));
                let vc = code_of(stmt_code(var_change.view(), sc2, cmt));
                let ll = seq![label_line(body_label@)];
                let bl = seq![ins("beq"@, three(temp_name(0), "$zero"@, end_label@))];
                let el = seq![ins("j"@, body_label@), label_line(end_label@)];
                let lines = ic + ll + cc + bl + bc + vc + el;
                lemma_texts_noted(cmt, "for"@, lines);
                lemma_texts_add(ic, ll);
                lemma_texts_add(ic + ll, cc);
                lemma_texts_add(ic + ll + cc, bl);
                lemma_texts_add(ic + ll + cc + bl, bc);
                lemma_texts_add(ic + ll + cc + bl + bc, vc);
                lemma_texts_add(ic + ll + cc + bl + bc + vc, el);
                assert(texts(ll) =~= seq![ll[0].1]);
                assert(texts(bl) =~= seq![bl[0].1]);
                assert(texts(el) =~= seq![el[0].1, el[1].1]);
                assert(strings_view(out@) =~= start + note_texts(cmt, "for"@) + texts(lines));
            }
            Ok(())
        },
        _ => Err(codegen_error("not a loop")),
    }
}

/// Emits the code of one statement of a function body.
fn gen_stmt(
    s: &Statement,
    alloc: &mut Allocator,
    data: &Vec<String>,
    cmt: bool,
    out: &mut Vec<String>,
) -> (r: Result<(), CompileError>)
    requires
        old(alloc).used() == Seq::<Register>::empty(),
    ensures
        match stmt_code(s.view(), scope_of(*old(alloc), strings_view(data@)), cmt) {
            Some((lines, sc2)) => r is Ok && strings_view(final(out)@) == strings_view(old(out)@) + texts(lines)
                && scope_of(*final(alloc), strings_view(data@)) == sc2 && final(alloc).used() == Seq::<
                Register,
            >::empty(),
            None => r is Err,
        },
    decreases s, 1int,
{
    match s {
        Statement::While { .. } => gen_while(s, alloc, data, cmt, out),
        Statement::If { .. } => gen_if(s, alloc, data, cmt, out),
        Statement::For { .. } => gen_for(s, alloc, data, cmt, out),
        _ => gen_simple(s, alloc, data, cmt, out),
    }
}


/// Operands separated by commas.
fn join_operands(ops: &Vec<String>) -> (r: String)
    ensures
        r@ == joined(strings_view(ops@)),
{
    let ghost v = strings_view(ops@);
    let mut r = String::new();
    let mut i: usize = 0;
    proof {
        assert(v.subrange(0, 0) =~= Seq::<Seq<char>>::empty());
    }
    while i < ops.len()
        invariant
            i <= ops@.len(),
            v == strings_view(ops@),
            r@ == joined(v.subrange(0, i as int)),
        decreases ops@.len() - i,
    {
        proof {
            assert(v.subrange(0, i + 1).drop_last() =~= v.subrange(0, i as int));
            assert(v.subrange(0, i + 1)[0] == v[0]);
        }
        if i > 0 {
            r.append(", ");
        } else {
            proof {
                assert(r@ =~= Seq::<char>::empty());
            }
        }
        r.append(ops[i].as_str());
        i = i + 1;
    }
    proof {
        assert(v.subrange(0, v.len() as int) =~= v);
    }
    r
}

/// Prints each argument through the system call `service`.
fn gen_print(
    arguments: &Vec<Argument>,
    service: &str,
    alloc: &mut Allocator,
    data: &Vec<String>,
    out: &mut Vec<String>,
) -> (r: Result<(), CompileError>)
    requires
        old(alloc).used() == Seq::<Register>::empty(),
    ensures
        same_bindings(*old(alloc), *final(alloc)),
        match print_code(args_view(arguments@), service@, scope_of(*old(alloc), strings_view(data@))) {
            Some(lines) => r is Ok && strings_view(final(out)@) == strings_view(old(out)@) + texts(lines)
                && final(alloc).used() == Seq::<Register>::empty(),
            None => r is Err,
        },
{
    let ghost sc = scope_of(*alloc, strings_view(data@));
    let ghost av = args_view(arguments@);
    let ghost start = strings_view(out@);
    proof {
        crate::ast::lemma_args_view_len(arguments@);
        lemma_no_temps();
        assert(av.subrange(0, 0) =~= Seq::<ExprV>::empty());
        assert(start + texts(Seq::<LineV>::empty()) =~= start);
    }
    let mut i: usize = 0;
    while i < arguments.len()
        invariant
            i <= arguments@.len(),
            av == args_view(arguments@),
            av.len() == arguments@.len(),
            forall|k: int| 0 <= k < arguments@.len() ==> #[trigger] av[k] == arguments@[k].expr.view(),
            alloc.used() == Seq::<Register>::empty(),
            temp_pool().subrange(0, 0) == Seq::<Register>::empty(),
            temp_name(0) == "$t0"@,
            same_bindings(*old(alloc), *alloc),
            sc == scope_of(*old(alloc), strings_view(data@)),
            start == strings_view(old(out)@),
            print_code(av.subrange(0, i as int), service@, sc) is Some,
            strings_view(out@) == start + texts(print_code(av.subrange(0, i as int), service@, sc)->0),
        decreases arguments@.len() - i,
    {
        let ghost pre = print_code(av.subrange(0, i as int), service@, sc)->0;
        proof {
            assert(av.subrange(0, i + 1).drop_last() =~= av.subrange(0, i as int));
            assert(av.subrange(0, i + 1).last() == arguments@[i as int].expr.view());
        }
        match gen_expr(&arguments[i].expr, 0, alloc, data, out) {
            Ok(()) => {},
            Err(err) => {
                proof {
                    lemma_print_code_prefix_fails(av, i + 1, service@, sc);
                    assert(av.subrange(0, av.len() as int) =~= av);
                }
                return Err(err);
            },
        }
        let ghost c = expr_code(arguments@[i as int].expr.view(), 0, sc)->0;
        emit_ins(out, "move", "$t8, $a0");
        emit_ins(out, "move", "$a0, $t0");
        emit_ins(out, "li", two_text("$v0", service).as_str());
        emit(out, String::from_str("    syscall"), Ghost(code_line("    syscall"@)));
        emit_ins(out, "move", "$a0, $t8");
        release_first(alloc);
        proof {
            reveal_strlit("$t8, $a0");
            reveal_strlit("$a0, $t0");
            reveal_strlit("$a0, $t8");
            reveal_strlit("$t8");
            reveal_strlit("$a0");
            reveal_strlit("$t0");
            reveal_strlit(", ");
            assert("$t8, $a0"@ =~= two("$t8"@, "$a0"@));
            assert("$a0, $t0"@ =~= two("$a0"@, temp_name(0)));
            assert("$a0, $t8"@ =~= two("$a0"@, "$t8"@));
            let tail = seq![
                ins("move"@, two("$t8"@, "$a0"@)),
                ins("move"@, two("$a0"@, temp_name(0))),
                ins("li"@, two("$v0"@, service@)),
                code_line("    syscall"@),
                ins("move"@, two("$a0"@, "$t8"@)),
            ];
            lemma_texts_add(pre, c);
            lemma_texts_add(pre + c, tail);
            assert(texts(tail) =~= seq![tail[0].1, tail[1].1, tail[2].1, tail[3].1, tail[4].1]);
            assert(strings_view(out@) =~= start + texts(pre + c + tail));
        }
        i = i + 1;
    }
    proof {
        assert(av.subrange(0, av.len() as int) =~= av);
    }
    Ok(())
}

/// The stack slots that a statement list needs, when that number fits in a `usize`.
fn slot_count(stmts: &[Statement]) -> (r: Option<usize>)
    ensures
        match r {
            Some(n) => n == decl_slots(stmts_view(stmts@)),
            None => decl_slots(stmts_view(stmts@)) > usize::MAX,
        },
    decreases stmts@,
{
    let ghost sv = stmts_view(stmts@);
    proof {
        crate::ast::lemma_stmts_view_len(stmts@);
        assert(sv.subrange(0, 0) =~= Seq::<StatementV>::empty());
    }
    let mut total: usize = 0;
    let mut i: usize = 0;
    while i < stmts.len()
        invariant
            i <= stmts@.len(),
            sv == stmts_view(stmts@),
            sv.len() == stmts@.len(),
            forall|k: int| 0 <= k < stmts@.len() ==> #[trigger] sv[k] == stmts@[k].view(),
            total == decl_slots(sv.subrange(0, i as int)),
        decreases stmts@.len() - i,
    {
        proof {
            assert(sv.subrange(0, i as int).push(sv[i as int]) =~= sv.subrange(0, i + 1));
            crate::allocator::lemma_slots_push(sv.subrange(0, i as int), sv[i as int]);
            crate::allocator::lemma_slots_prefix(sv, i + 1);
            assert(decreases_to!(stmts@ => stmts@[i as int]));
        }
        let ghost here = crate::allocator::stmt_slots(sv[i as int]);
        let add: usize = match &stmts[i] {
            Statement::VariableDeclaration { .. } => 1,
            Statement::While { body, .. } | Statement::If { body, .. } => match slot_count(body.as_slice()) {
                Some(n) => n,
                None => {
                    return None;
                },
            },
            Statement::For { body, .. } => match slot_count(body.as_slice()) {
                Some(n) => {
                    if n == usize::MAX {
                        return None;
                    }
                    n + 1
                },
                None => {
                    return None;
                },
            },
            _ => 0,
        };
        assert(add == here);
        if add > usize::MAX - total {
            return None;
        }
        total = total + add;
        i = i + 1;
    }
    proof {
        assert(sv.subrange(0, sv.len() as int) =~= sv);
    }
    Some(total)
}

proof fn lemma_param_bindings_prefix_fails(names: Seq<Seq<char>>, i: int)
    requires
        0 <= i <= names.len(),
        param_bindings(names.subrange(0, i)) is None,
    ensures
        param_bindings(names) is None,
    decreases names.len() - i,
{
    if i < names.len() {
        assert(names.subrange(0, i + 1).drop_last() =~= names.subrange(0, i));
        lemma_param_bindings_prefix_fails(names, i + 1);
    } else {
        assert(names.subrange(0, i) =~= names);
    }
}

/// The names of parameters.
pub open spec fn param_names(ps: Seq<(Seq<char>, Type)>) -> Seq<Seq<char>> {
    ps.map_values(|p: (Seq<char>, Type)| p.0)
}

/// Emits one top-level function.
fn gen_function(f: &Statement, data: &Vec<String>, cmt: bool, out: &mut Vec<String>) -> (r: Result<
    (),
    CompileError,
>)
    ensures
        match function_code(f.view(), strings_view(data@), cmt) {
            Some(lines) => r is Ok && strings_view(final(out)@) == strings_view(old(out)@) + texts(lines),
            None => r is Err,
        },
{
    let ghost start = strings_view(out@);
    match f {
        Statement::Function { name, params, body, use_stack, .. } => {
            let mut alloc = Allocator::new();
            if !*use_stack {
                emit_label(out, name.as_str());
                match gen_body(body.as_slice(), &mut alloc, data, cmt, out) {
                    Ok(()) => {},
                    Err(err) => {
                        return Err(err);
                    },
                }
                proof {
                    let bc = code_of(body_code(stmts_view(body@), scope_of(alloc, strings_view(data@)), cmt));
                    assert(texts(seq![label_line(name@)] + code_of(
                        body_code(stmts_view(body@), Scope { stack: seq![], args: seq![], frame: 0, data: strings_view(data@) }, cmt),
                    )) =~= seq![label_line(name@).1] + texts(code_of(
                        body_code(stmts_view(body@), Scope { stack: seq![], args: seq![], frame: 0, data: strings_view(data@) }, cmt),
                    )));
                }
                return Ok(());
            }
            let n = params.len();
            let ghost pv = params_view(params@);
            let ghost names = param_names(pv);
            let slots = match slot_count(body.as_slice()) {
                Some(k) => k,
                None => {
                    return Err(codegen_error("the frame does not fit in memory"));
                },
            };
            let total: u128 = 4 * (n as u128 + 1) + 4 * (slots as u128);
            if total > usize::MAX as u128 {
                return Err(codegen_error("the frame does not fit in memory"));
            }
            let frame = alloc.calculate_needed_stack_space(body, n);
            proof {
                assert(names.len() == params@.len());
                assert(names.subrange(0, 0) =~= Seq::<Seq<char>>::empty());
            }
            let mut i: usize = 0;
            while i < params.len()
                invariant
                    i <= params@.len(),
                    n == params@.len(),
                    pv == params_view(params@),
                    names == param_names(pv),
                    names.len() == params@.len(),
                    alloc.used() == Seq::<Register>::empty(),
                    alloc.stack_vars() == Seq::<(Seq<char>, usize)>::empty(),
                    alloc.frame_size() == frame,
                    frame == frame_bytes(n as nat, stmts_view(body@)),
                    f.view() == (StatementV::Function {
                        name: name@,
                        params: pv,
                        return_type: f.view()->Function_return_type,
                        body: stmts_view(body@),
                        use_stack: true,
                    }),
                    param_bindings(names.subrange(0, i as int)) == Some(alloc.arguments()),
                decreases params@.len() - i,
            {
                proof {
                    assert(names.subrange(0, i + 1).drop_last() =~= names.subrange(0, i as int));
                    assert(names[i as int] == params@[i as int].name@);
                }
                match alloc.add_argument(params[i].name.as_str()) {
                    Ok(()) => {},
                    Err(err) => {
                        proof {
                            lemma_param_bindings_prefix_fails(names, i + 1);
                        }
                        return Err(err);
                    },
                }
                i = i + 1;
            }
            proof {
                assert(names.subrange(0, names.len() as int) =~= names);
            }
            emit_label(out, name.as_str());
            let neg = cat("-", decimal_string(frame).as_str());
            emit_ins(out, "addi", three_text("$sp", "$sp", neg.as_str()).as_str());
            let slot = stack_operand_text(0);
            emit_ins(out, "sw", two_text("$ra", slot.as_str()).as_str());
            match gen_body(body.as_slice(), &mut alloc, data, cmt, out) {
                Ok(()) => {},
                Err(err) => {
                    return Err(err);
                },
            }
            let ghost before_end = strings_view(out@);
            let ends = body.len() > 0 && matches!(body[body.len() - 1], Statement::Return { .. });
            proof {
                crate::ast::lemma_stmts_view_len(body@);
                if body@.len() > 0 {
                    assert(stmts_view(body@).last() == body@.last().view());
                }
                assert(ends == ends_in_return(stmts_view(body@)));
            }
            if !ends {
                emit_epilogue(out, frame);
            } else {
                proof {
                    assert(before_end + texts(closing(stmts_view(body@), frame)) =~= before_end);
                }
            }
            proof {
                let sc = Scope { stack: seq![], args: alloc.arguments(), frame, data: strings_view(data@) };
                let head = seq![label_line(name@)] + prologue(frame);
                assert(texts(head) =~= seq![
                    label_line(name@).1,
                    ins("addi"@, three("$sp"@, "$sp"@, "-"@ + dec_seq(frame as nat))).1,
                    ins("sw"@, two("$ra"@, stack_operand(0))).1,
                ]);
                lemma_texts_add(head, code_of(body_code(stmts_view(body@), sc, cmt)));
                lemma_texts_add(head + code_of(body_code(stmts_view(body@), sc, cmt)), closing(stmts_view(body@), frame));
            }
            Ok(())
        },
        _ => Err(codegen_error("only functions may stand at the top level")),
    }
}

proof fn lemma_data_code_prefix_fails(ds: Seq<StatementV>, i: int)
    requires
        0 <= i <= ds.len(),
        data_code(ds.subrange(0, i)) is None,
    ensures
        data_code(ds) is None,
    decreases ds.len() - i,
{
    if i < ds.len() {
        assert(ds.subrange(0, i + 1).drop_last() =~= ds.subrange(0, i));
        lemma_data_code_prefix_fails(ds, i + 1);
    } else {
        assert(ds.subrange(0, i) =~= ds);
    }
}

/// Emits one `.asciiz` directive per data declaration and collects their values.
fn gen_data(decls: &Vec<Statement>, out: &mut Vec<String>, values: &mut Vec<String>) -> (r: Result<
    (),
    CompileError,
>)
    requires
        old(values)@.len() == 0,
    ensures
        match data_code(stmts_view(decls@)) {
            Some(lines) => r is Ok && strings_view(final(out)@) == strings_view(old(out)@) + texts(lines)
                && strings_view(final(values)@) == data_values(stmts_view(decls@)),
            None => r is Err,
        },
{
    let ghost dv = stmts_view(decls@);
    let ghost start = strings_view(out@);
    proof {
        crate::ast::lemma_stmts_view_len(decls@);
        assert(dv.subrange(0, 0) =~= Seq::<StatementV>::empty());
        assert(start + texts(Seq::<LineV>::empty()) =~= start);
        assert(strings_view(values@) =~= data_values(dv.subrange(0, 0)));
    }
    let mut i: usize = 0;
    while i < decls.len()
        invariant
            i <= decls@.len(),
            dv == stmts_view(decls@),
            dv.len() == decls@.len(),
            forall|k: int| 0 <= k < decls@.len() ==> #[trigger] dv[k] == decls@[k].view(),
            start == strings_view(old(out)@),
            data_code(dv.subrange(0, i as int)) is Some,
            strings_view(out@) == start + texts(data_code(dv.subrange(0, i as int))->0),
            strings_view(values@) == data_values(dv.subrange(0, i as int)),
        decreases decls@.len() - i,
    {
        let ghost pre = data_code(dv.subrange(0, i as int))->0;
        proof {
            assert(dv.subrange(0, i + 1).drop_last() =~= dv.subrange(0, i as int));
            assert(dv.subrange(0, i + 1).last() == decls@[i as int].view());
        }
        match &decls[i] {
            Statement::DataDeclaration { label, value, .. } => {
                let mut line = cat(label.as_str(), ": .asciiz \"");
                line.append(value.as_str());
                line.append("\"");
                let ghost l = code_line(label@ + ": .asciiz \""@ + value@ + "\""@);
                emit(out, line, Ghost(l));
                let ghost old_values = values@;
                values.push(value.clone());
                proof {
                    assert(texts(pre.push(l)) =~= texts(pre).push(l.1));
                    assert(strings_view(values@) =~= strings_view(old_values).push(value@));
                    assert(dv.subrange(0, i + 1) =~= dv.subrange(0, i as int).push(dv[i as int]));
                    assert(data_values(dv.subrange(0, i + 1)) =~= data_values(dv.subrange(0, i as int)).push(value@));
                }
            },
            _ => {
                proof {
                    lemma_data_code_prefix_fails(dv, i + 1);
                }
                return Err(codegen_error("the data segment holds something other than data"));
            },
        }
        i = i + 1;
    }
    proof {
        assert(dv.subrange(0, dv.len() as int) =~= dv);
    }
    Ok(())
}

proof fn lemma_text_code_prefix_fails(ts: Seq<StatementV>, i: int, data: Seq<Seq<char>>, cmt: bool)
    requires
        0 <= i <= ts.len(),
        text_code(ts.subrange(0, i), data, cmt) is None,
    ensures
        text_code(ts, data, cmt) is None,
    decreases ts.len() - i,
{
    if i < ts.len() {
        assert(ts.subrange(0, i + 1).drop_last() =~= ts.subrange(0, i));
        lemma_text_code_prefix_fails(ts, i + 1, data, cmt);
    } else {
        assert(ts.subrange(0, i) =~= ts);
    }
}

/// Joins lines into one text, each ended by a newline.
fn join_lines(lines: &Vec<String>) -> (r: String)
    ensures
        r@ == render(strings_view(lines@)),
{
    let ghost v = strings_view(lines@);
    let mut text = String::new();
    let mut i: usize = 0;
    proof {
        assert(v.subrange(0, 0) =~= Seq::<Seq<char>>::empty());
    }
    while i < lines.len()
        invariant
            i <= lines@.len(),
            v == strings_view(lines@),
            text@ == render(v.subrange(0, i as int)),
        decreases lines@.len() - i,
    {
        proof {
            assert(v.subrange(0, i + 1).drop_last() =~= v.subrange(0, i as int));
        }
        text.append(lines[i].as_str());
        text.append("\n");
        i = i + 1;
    }
    proof {
        assert(v.subrange(0, v.len() as int) =~= v);
    }
    text
}

/// Lowers a parsed program to MIPS assembly text.
pub struct MipsGenerator {
    program: Program,
    emit_comments: bool,
}

impl MipsGenerator {
    /// The program that is lowered.
    pub closed spec fn source(&self) -> crate::ast::ProgramV {
        self.program.view()
    }

    /// Whether comment lines are emitted.
    pub closed spec fn comments(&self) -> bool {
        self.emit_comments
    }

    pub fn new(program: Program, emit_comments: bool) -> (r: MipsGenerator)
        ensures
            r.source() == program.view(),
            r.comments() == emit_comments,
    {
        MipsGenerator { program, emit_comments }
    }

    /// The assembly text: a `.data` section with one `.asciiz` directive per data declaration,
    /// then a `.text` section with the code of each function; an error for what cannot be
    /// lowered.
    pub fn generate(&mut self) -> (r: Result<String, CompileError>)
        ensures
            final(self).source() == old(self).source(),
            final(self).comments() == old(self).comments(),
            match program_code(old(self).source().data, old(self).source().text, old(self).comments()) {
                Some(lines) => r matches Ok(text) && text@ == render(texts(lines)),
                None => r is Err,
            },
    {
        let ghost dv = self.program.view().data;
        let ghost tv = self.program.view().text;
        let mut out: Vec<String> = Vec::new();
        emit(&mut out, String::from_str(".data"), Ghost(code_line(".data"@)));
        let mut values: Vec<String> = Vec::new();
        match gen_data(&self.program.segments.data.body, &mut out, &mut values) {
            Ok(()) => {},
            Err(err) => {
                return Err(err);
            },
        }
        emit(&mut out, String::from_str(".text"), Ghost(code_line(".text"@)));
        let ghost head = strings_view(out@);
        let ghost data = strings_view(values@);
        let text = &self.program.segments.text.body;
        proof {
            crate::ast::lemma_stmts_view_len(text@);
            assert(tv.subrange(0, 0) =~= Seq::<StatementV>::empty());
            assert(head + texts(Seq::<LineV>::empty()) =~= head);
        }
        let mut i: usize = 0;
        while i < text.len()
            invariant
                i <= text@.len(),
                tv == stmts_view(text@),
                tv.len() == text@.len(),
                forall|k: int| 0 <= k < text@.len() ==> #[trigger] tv[k] == text@[k].view(),
                data == strings_view(values@),
                dv == old(self).program.view().data,
                tv == old(self).program.view().text,
                data == data_values(dv),
                data_code(dv) is Some,
                self.emit_comments == old(self).emit_comments,
                self.program.view() == old(self).program.view(),
                text_code(tv.subrange(0, i as int), data, self.emit_comments) is Some,
                strings_view(out@) == head + texts(text_code(tv.subrange(0, i as int), data, self.emit_comments)->0),
            decreases text@.len() - i,
        {
            let ghost pre = text_code(tv.subrange(0, i as int), data, self.emit_comments)->0;
            proof {
                assert(tv.subrange(0, i + 1).drop_last() =~= tv.subrange(0, i as int));
                assert(tv.subrange(0, i + 1).last() == text@[i as int].view());
            }
            match gen_function(&text[i], &values, self.emit_comments, &mut out) {
                Ok(()) => {},
                Err(err) => {
                    proof {
                        lemma_text_code_prefix_fails(tv, i + 1, data, self.emit_comments);
                        assert(tv.subrange(0, tv.len() as int) =~= tv);
                    }
                    return Err(err);
                },
            }
            proof {
                lemma_texts_add(pre, function_code(text@[i as int].view(), data, self.emit_comments)->0);
            }
            i = i + 1;
        }
        proof {
            assert(tv.subrange(0, tv.len() as int) =~= tv);
            let dc = data_code(dv)->0;
            let tc = text_code(tv, data, self.emit_comments)->0;
            let lines = seq![code_line(".data"@)] + dc + seq![code_line(".text"@)] + tc;
            lemma_texts_add(seq![code_line(".data"@)], dc);
            lemma_texts_add(seq![code_line(".data"@)] + dc, seq![code_line(".text"@)]);
            lemma_texts_add(seq![code_line(".data"@)] + dc + seq![code_line(".text"@)], tc);
            assert(texts(seq![code_line(".data"@)]) =~= seq![".data"@]);
            assert(texts(seq![code_line(".text"@)]) =~= seq![".text"@]);
            assert(strings_view(out@) =~= texts(lines));
        }
        Ok(join_lines(&out))
    }
}

} // verus!
