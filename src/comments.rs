use vstd::prelude::*;
use crate::ast::{ExprV, StatementV};
use crate::mips::{
    LineV, Scope, args_code, body_code, comment_line, data_code, data_values, expr_code,
    function_code, noted, param_bindings, param_names, print_code, program_code, stmt_code,
    text_code,
};

verus! {

/// The code lines of a line list, comment lines left out.
pub open spec fn code_only(ls: Seq<LineV>) -> Seq<LineV>
    decreases ls.len(),
{
    if ls.len() == 0 {
        seq![]
    } else if ls.last().0 {
        code_only(ls.drop_last())
    } else {
        code_only(ls.drop_last()).push(ls.last())
    }
}

/// No line of `ls` is a comment.
pub open spec fn all_code(ls: Seq<LineV>) -> bool {
    forall|i: int| 0 <= i < ls.len() ==> !(#[trigger] ls[i]).0
}

proof fn lemma_code_only_add(a: Seq<LineV>, b: Seq<LineV>)
    ensures
        code_only(a + b) == code_only(a) + code_only(b),
    decreases b.len(),
{
    if b.len() == 0 {
        assert(a + b =~= a);
        assert(code_only(a) + Seq::<LineV>::empty() =~= code_only(a));
    } else {
        lemma_code_only_add(a, b.drop_last());
        assert((a + b).drop_last() =~= a + b.drop_last());
        assert((a + b).last() == b.last());
        if !b.last().0 {
            assert(code_only(a) + code_only(b.drop_last()).push(b.last()) =~= (code_only(a) + code_only(
                b.drop_last(),
            )).push(b.last()));
        }
    }
}

proof fn lemma_code_only_of_code(ls: Seq<LineV>)
    requires
        all_code(ls),
    ensures
        code_only(ls) == ls,
    decreases ls.len(),
{
    if ls.len() > 0 {
        let rest = ls.drop_last();
        assert(all_code(rest)) by {
            assert forall|i: int| 0 <= i < rest.len() implies !(#[trigger] rest[i]).0 by {
                assert(rest[i] == ls[i]);
            }
        }
        lemma_code_only_of_code(rest);
        assert(!ls[ls.len() - 1].0);
        assert(rest.push(ls.last()) =~= ls);
    }
}

proof fn lemma_all_code_add(a: Seq<LineV>, b: Seq<LineV>)
    requires
        all_code(a),
        all_code(b),
    ensures
        all_code(a + b),
{
    assert forall|i: int| 0 <= i < (a + b).len() implies !(#[trigger] (a + b)[i]).0 by {
        if i < a.len() {
            assert((a + b)[i] == a[i]);
        } else {
            assert((a + b)[i] == b[i - a.len()]);
        }
    }
}

proof fn lemma_noted(text: Seq<char>, lines: Seq<LineV>)
    ensures
        code_only(noted(true, text, lines)) == code_only(lines),
        noted(false, text, lines) == lines,
{
    lemma_code_only_add(seq![comment_line(text)], lines);
    assert(seq![comment_line(text)].drop_last() =~= Seq::<LineV>::empty());
    assert(seq![comment_line(text)].last().0);
    assert(code_only(Seq::<LineV>::empty()) == Seq::<LineV>::empty());
    assert(code_only(seq![comment_line(text)]) == Seq::<LineV>::empty());
    assert(Seq::<LineV>::empty() + code_only(lines) =~= code_only(lines));
}

proof fn lemma_expr_all_code(e: ExprV, d: nat, sc: Scope)
    ensures
        expr_code(e, d, sc) matches Some(ls) ==> all_code(ls),
    decreases e,
{
    if d < 8 {
        match e {
            ExprV::BinaryOp { left, operator, right, is_not } => {
                lemma_expr_all_code(*left, d, sc);
                lemma_expr_all_code(*right, d + 1, sc);
                if let Some(lc) = expr_code(*left, d, sc) {
                    if let Some(rc) = expr_code(*right, d + 1, sc) {
                        lemma_all_code_add(lc, rc);
                    }
                }
                if let Some(ls) = expr_code(e, d, sc) {
                    assert forall|i: int| 0 <= i < ls.len() implies !(#[trigger] ls[i]).0 by {
                        let lc = expr_code(*left, d, sc)->0;
                        if i < lc.len() {
                            assert(ls[i] == lc[i]);
                        } else if !(operator == crate::ast::BinaryOperator::Empty) && !(operator
                            == crate::ast::BinaryOperator::Equal && *right == ExprV::Empty) {
                            let rc = expr_code(*right, d + 1, sc)->0;
                            if i < lc.len() + rc.len() {
                                assert(ls[i] == (lc + rc)[i]);
                            }
                        }
                    }
                }
            },
            ExprV::FunctionCall { function_name, arguments } => {
                lemma_args_all_code(arguments, d, sc);
                if let Some(ls) = expr_code(e, d, sc) {
                    let ac = args_code(arguments, d, sc)->0;
                    assert forall|i: int| 0 <= i < ls.len() implies !(#[trigger] ls[i]).0 by {
                        if i < ac.len() {
                            assert(ls[i] == ac[i]);
                        }
                    }
                }
            },
            _ => {},
        }
    }
}

proof fn lemma_args_all_code(args: Seq<ExprV>, d: nat, sc: Scope)
    ensures
        args_code(args, d, sc) matches Some(ls) ==> all_code(ls),
    decreases args,
{
    if args.len() > 0 {
        lemma_args_all_code(args.drop_last(), d, sc);
        lemma_expr_all_code(args.last(), d, sc);
        if let Some(pre) = args_code(args.drop_last(), d, sc) {
            if let Some(c) = expr_code(args.last(), d, sc) {
                lemma_all_code_add(pre, c);
                let tail = seq![
                    crate::mips::ins(
                        "move"@,
                        crate::mips::two(crate::mips::arg_register_name((args.len() - 1) as nat), crate::mips::temp_name(d)),
                    ),
                ];
                assert(all_code(tail));
                lemma_all_code_add(pre + c, tail);
            }
        }
    }
}

proof fn lemma_print_all_code(args: Seq<ExprV>, service: Seq<char>, sc: Scope)
    ensures
        print_code(args, service, sc) matches Some(ls) ==> all_code(ls),
    decreases args.len(),
{
    if args.len() > 0 {
        lemma_print_all_code(args.drop_last(), service, sc);
        lemma_expr_all_code(args.last(), 0, sc);
        if let Some(ls) = print_code(args, service, sc) {
            let pre = print_code(args.drop_last(), service, sc)->0;
            let c = expr_code(args.last(), 0, sc)->0;
            lemma_all_code_add(pre, c);
            assert forall|i: int| 0 <= i < ls.len() implies !(#[trigger] ls[i]).0 by {
                if i < pre.len() + c.len() {
                    assert(ls[i] == (pre + c)[i]);
                }
            }
        }
    }
}

/// The code and scope of a lowering step with comments, against the step without them.
pub open spec fn same_code(
    with: Option<(Seq<LineV>, Scope)>,
    without: Option<(Seq<LineV>, Scope)>,
) -> bool {
    match (with, without) {
        (Some((a, s1)), Some((b, s2))) => s1 == s2 && code_only(a) == b && all_code(b),
        (None, None) => true,
        _ => false,
    }
}

proof fn lemma_while_comments(s: StatementV, sc: Scope)
    requires
        s is While,
    ensures
        same_code(stmt_code(s, sc, true), stmt_code(s, sc, false)),
    decreases s, 0int,
{
    match s {
        StatementV::While { body_label, end_label, condition, body } => {
            lemma_expr_all_code(condition, 0, sc);
            lemma_body_comments(body, sc);
            if let (Some(cc), Some((bt, s1)), Some((bf, _))) = (
                expr_code(condition, 0, sc),
                body_code(body, sc, true),
                body_code(body, sc, false),
            ) {
                let l1 = seq![crate::mips::label_line(body_label)];
                let l2 = seq![crate::mips::ins("beq"@, crate::mips::three(crate::mips::temp_name(0), "$zero"@, end_label))];
                let l3 = seq![crate::mips::ins("j"@, body_label), crate::mips::label_line(end_label)];
                assert(all_code(l1) && all_code(l2) && all_code(l3));
                lemma_all_code_add(l1, cc);
                lemma_all_code_add(l1 + cc, l2);
                three_pieces(l1 + cc + l2, bt, bf, l3);
                lemma_noted("while"@, l1 + cc + l2 + bt + l3);
            }
        },
        _ => {},
    }
}

proof fn lemma_if_comments(s: StatementV, sc: Scope)
    requires
        s is If,
    ensures
        same_code(stmt_code(s, sc, true), stmt_code(s, sc, false)),
    decreases s, 0int,
{
    match s {
        StatementV::If { label, condition, body } => {
            lemma_expr_all_code(condition, 0, sc);
            lemma_body_comments(body, sc);
            if let (Some(cc), Some((bt, s1)), Some((bf, _))) = (
                expr_code(condition, 0, sc),
                body_code(body, sc, true),
                body_code(body, sc, false),
            ) {
                let l2 = seq![crate::mips::ins("bne"@, crate::mips::three(crate::mips::temp_name(0), "$zero"@, label))];
                let l3 = seq![crate::mips::label_line(label)];
                assert(all_code(l2) && all_code(l3));
                lemma_all_code_add(cc, l2);
                three_pieces(cc + l2, bt, bf, l3);
                lemma_noted("if"@, cc + l2 + bt + l3);
            }
        },
        _ => {},
    }
}

proof fn lemma_for_comments(s: StatementV, sc: Scope)
    requires
        s is For,
    ensures
        same_code(stmt_code(s, sc, true), stmt_code(s, sc, false)),
    decreases s, 0int,
{
    match s {
        StatementV::For { init, body_label, end_label, condition, var_change, body } => {
            lemma_stmt_comments(*init, sc);
            if let (Some((it, s1)), Some((iff, _))) = (stmt_code(*init, sc, true), stmt_code(*init, sc, false)) {
                lemma_expr_all_code(condition, 0, s1);
                lemma_body_comments(body, s1);
                if let (Some(cc), Some((bt, s2)), Some((bf, _))) = (
                    expr_code(condition, 0, s1),
                    body_code(body, s1, true),
                    body_code(body, s1, false),
                ) {
                    lemma_stmt_comments(*var_change, s2);
                    if let (Some((vt, _)), Some((vf, _))) = (
                        stmt_code(*var_change, s2, true),
                        stmt_code(*var_change, s2, false),
                    ) {
                        let l1 = seq![crate::mips::label_line(body_label)];
                        let l2 = seq![crate::mips::ins("beq"@, crate::mips::three(crate::mips::temp_name(0), "$zero"@, end_label))];
                        let l3 = seq![crate::mips::ins("j"@, body_label), crate::mips::label_line(end_label)];
                        assert(all_code(l1) && all_code(l2) && all_code(l3));
                        let m = l1 + cc + l2;
                        lemma_all_code_add(l1, cc);
                        lemma_all_code_add(l1 + cc, l2);
                        lemma_code_only_of_code(m);
                        lemma_code_only_of_code(l3);
                        lemma_code_only5(it, m, bt, vt, l3);
                        lemma_all_code_add(iff, m);
                        lemma_all_code_add(iff + m, bf);
                        lemma_all_code_add(iff + m + bf, vf);
                        lemma_all_code_add(iff + m + bf + vf, l3);
                        assert(it + m + bt + vt + l3 =~= it + l1 + cc + l2 + bt + vt + l3);
                        assert(iff + m + bf + vf + l3 =~= iff + l1 + cc + l2 + bf + vf + l3);
                        lemma_noted("for"@, it + l1 + cc + l2 + bt + vt + l3);
                    }
                }
            }
        },
        _ => {},
    }
}

proof fn lemma_stmt_comments(s: StatementV, sc: Scope)
    ensures
        same_code(stmt_code(s, sc, true), stmt_code(s, sc, false)),
    decreases s, 1int,
{
    match s {
        StatementV::While { .. } => lemma_while_comments(s, sc),
        StatementV::If { .. } => lemma_if_comments(s, sc),
        StatementV::For { .. } => lemma_for_comments(s, sc),
        _ => simple_comments(s, sc),
    }
}

proof fn lemma_code_only5(a: Seq<LineV>, b: Seq<LineV>, c: Seq<LineV>, d: Seq<LineV>, e: Seq<LineV>)
    ensures
        code_only(a + b + c + d + e) == code_only(a) + code_only(b) + code_only(c) + code_only(d)
            + code_only(e),
{
    lemma_code_only_add(a, b);
    lemma_code_only_add(a + b, c);
    lemma_code_only_add(a + b + c, d);
    lemma_code_only_add(a + b + c + d, e);
}

/// Code around a body: with comments left out, `p + a + t` is `p + b + t`, all of it code.
proof fn three_pieces(p: Seq<LineV>, a: Seq<LineV>, b: Seq<LineV>, t: Seq<LineV>)
    requires
        all_code(p),
        code_only(a) == b,
        all_code(b),
        all_code(t),
    ensures
        code_only(p + a + t) == p + b + t,
        all_code(p + b + t),
{
    lemma_code_only_of_code(p);
    lemma_code_only_of_code(t);
    lemma_code_only_add(p, a);
    lemma_code_only_add(p + a, t);
    lemma_all_code_add(p, b);
    lemma_all_code_add(p + b, t);
}

proof fn simple_comments(s: StatementV, sc: Scope)
    requires
        !(s is While),
        !(s is If),
        !(s is For),
    ensures
        same_code(stmt_code(s, sc, true), stmt_code(s, sc, false)),
{
    match s {
        StatementV::VariableDeclaration { identifier, operation, .. } => {
            lemma_expr_all_code(operation, 0, sc);
            if let Some(c) = stmt_code(s, sc, false) {
                let ls = c.0;
                assert(all_code(ls)) by {
                    let ec = expr_code(operation, 0, sc)->0;
                    assert forall|i: int| 0 <= i < ls.len() implies !(#[trigger] ls[i]).0 by {
                        if i < ec.len() {
                            assert(ls[i] == ec[i]);
                        }
                    }
                }
                lemma_code_only_of_code(ls);
                lemma_noted("declare "@ + identifier, ls);
            }
        },
        StatementV::VariableAssignment { identifier, operation } => {
            lemma_expr_all_code(operation, 0, sc);
            if let Some(c) = stmt_code(s, sc, false) {
                let ls = c.0;
                assert(all_code(ls)) by {
                    let ec = expr_code(operation, 0, sc)->0;
                    assert forall|i: int| 0 <= i < ls.len() implies !(#[trigger] ls[i]).0 by {
                        if i < ec.len() {
                            assert(ls[i] == ec[i]);
                        }
                    }
                }
                lemma_code_only_of_code(ls);
                lemma_noted("assign "@ + identifier, ls);
            }
        },
        StatementV::Return { value } => {
            lemma_expr_all_code(value, 0, sc);
            if let Some(c) = stmt_code(s, sc, false) {
                let ls = c.0;
                assert(all_code(ls)) by {
                    let ep = crate::mips::epilogue(sc.frame);
                    assert(all_code(ep));
                    if value != ExprV::Empty {
                        let ec = expr_code(value, 0, sc)->0;
                        let vc = ec.push(crate::mips::ins("move"@, crate::mips::two("$v0"@, crate::mips::temp_name(0))));
                        assert forall|i: int| 0 <= i < vc.len() implies !(#[trigger] vc[i]).0 by {
                            if i < ec.len() {
                                assert(vc[i] == ec[i]);
                            }
                        }
                        lemma_all_code_add(vc, ep);
                    } else {
                        assert(Seq::<LineV>::empty() + ep =~= ep);
                    }
                }
                lemma_code_only_of_code(ls);
                lemma_noted("return"@, ls);
            }
        },
        StatementV::ExprStatement(e) => {
            lemma_expr_all_code(e, 0, sc);
            if let Some(c) = stmt_code(s, sc, false) {
                lemma_code_only_of_code(c.0);
                lemma_noted("expression"@, c.0);
            }
        },
        StatementV::FunctionCall { function_name, arguments } => {
            lemma_expr_all_code(ExprV::FunctionCall { function_name, arguments }, 0, sc);
            if let Some(c) = stmt_code(s, sc, false) {
                lemma_code_only_of_code(c.0);
                lemma_noted("call "@ + function_name, c.0);
            }
        },
        StatementV::BuiltinFunctionCall { function_type, arguments } => {
            lemma_print_all_code(arguments, "1"@, sc);
            lemma_print_all_code(arguments, "4"@, sc);
            if let Some(c) = stmt_code(s, sc, false) {
                lemma_code_only_of_code(c.0);
                lemma_noted("print"@, c.0);
            }
        },
        StatementV::Instruction { .. } => {
            if let Some(c) = stmt_code(s, sc, false) {
                assert(all_code(c.0));
                lemma_code_only_of_code(c.0);
            }
        },
        _ => {},
    }
}

proof fn lemma_body_comments(ss: Seq<StatementV>, sc: Scope)
    ensures
        same_code(body_code(ss, sc, true), body_code(ss, sc, false)),
    decreases ss, 2int,
{
    if ss.len() == 0 {
        assert(code_only(Seq::<LineV>::empty()) == Seq::<LineV>::empty());
    } else {
        lemma_body_comments(ss.drop_last(), sc);
        if let (Some((pt, s1)), Some((pf, _))) = (body_code(ss.drop_last(), sc, true), body_code(ss.drop_last(), sc, false)) {
            lemma_stmt_comments(ss.last(), s1);
            if let (Some((ct, _)), Some((cf, _))) = (stmt_code(ss.last(), s1, true), stmt_code(ss.last(), s1, false)) {
                lemma_code_only_add(pt, ct);
                lemma_all_code_add(pf, cf);
            }
        }
    }
}

/// Comments never change the instructions: a program lowers with comments exactly when it
/// lowers without them, and leaving out the comment lines of the first gives the second.
pub proof fn lemma_comments_keep_code(data: Seq<StatementV>, text: Seq<StatementV>)
    ensures
        program_code(data, text, true) is Some <==> program_code(data, text, false) is Some,
        program_code(data, text, true) matches Some(a) ==> code_only(a) == program_code(data, text, false)->0,
{
    lemma_text_comments(text, data_values(data));
    if let (Some(dc), Some(tt), Some(tf)) = (
        data_code(data),
        text_code(text, data_values(data), true),
        text_code(text, data_values(data), false),
    ) {
        lemma_data_all_code(data);
        let h = seq![crate::mips::code_line(".data"@)] + dc + seq![crate::mips::code_line(".text"@)];
        assert(all_code(seq![crate::mips::code_line(".data"@)]));
        assert(all_code(seq![crate::mips::code_line(".text"@)]));
        lemma_all_code_add(seq![crate::mips::code_line(".data"@)], dc);
        lemma_all_code_add(seq![crate::mips::code_line(".data"@)] + dc, seq![crate::mips::code_line(".text"@)]);
        lemma_code_only_of_code(h);
        lemma_code_only_add(h, tt);
    }
}

proof fn lemma_data_all_code(data: Seq<StatementV>)
    ensures
        data_code(data) matches Some(ls) ==> all_code(ls),
    decreases data.len(),
{
    if data.len() > 0 {
        lemma_data_all_code(data.drop_last());
        if let Some(ls) = data_code(data) {
            let pre = data_code(data.drop_last())->0;
            assert forall|i: int| 0 <= i < ls.len() implies !(#[trigger] ls[i]).0 by {
                if i < pre.len() {
                    assert(ls[i] == pre[i]);
                }
            }
        }
    }
}

proof fn lemma_text_comments(text: Seq<StatementV>, data: Seq<Seq<char>>)
    ensures
        text_code(text, data, true) is Some <==> text_code(text, data, false) is Some,
        text_code(text, data, true) matches Some(a) ==> code_only(a) == text_code(text, data, false)->0
            && all_code(text_code(text, data, false)->0),
    decreases text.len(),
{
    if text.len() == 0 {
        assert(code_only(Seq::<LineV>::empty()) == Seq::<LineV>::empty());
    } else {
        lemma_text_comments(text.drop_last(), data);
        lemma_function_comments(text.last(), data);
        if let (Some(pt), Some(pf), Some(ct), Some(cf)) = (
            text_code(text.drop_last(), data, true),
            text_code(text.drop_last(), data, false),
            function_code(text.last(), data, true),
            function_code(text.last(), data, false),
        ) {
            lemma_code_only_add(pt, ct);
            lemma_all_code_add(pf, cf);
        }
    }
}

proof fn lemma_function_comments(f: StatementV, data: Seq<Seq<char>>)
    ensures
        function_code(f, data, true) is Some <==> function_code(f, data, false) is Some,
        function_code(f, data, true) matches Some(a) ==> code_only(a) == function_code(f, data, false)->0
            && all_code(function_code(f, data, false)->0),
{
    if let StatementV::Function { name, params, body, use_stack, .. } = f {
        let head0 = seq![crate::mips::label_line(name)];
        assert(all_code(head0));
        if !use_stack {
            let sc = Scope { stack: seq![], args: seq![], frame: 0, data };
            lemma_body_comments(body, sc);
            if let (Some((bt, _)), Some((bf, _))) = (body_code(body, sc, true), body_code(body, sc, false)) {
                lemma_code_only_of_code(head0);
                lemma_code_only_add(head0, bt);
                lemma_all_code_add(head0, bf);
            }
        } else if crate::mips::frame_bytes(params.len(), body) <= usize::MAX {
            let frame = crate::mips::frame_bytes(params.len(), body) as usize;
            if let Some(args) = param_bindings(param_names(params)) {
                let sc = Scope { stack: seq![], args, frame, data };
                lemma_body_comments(body, sc);
                if let (Some((bt, _)), Some((bf, _))) = (body_code(body, sc, true), body_code(body, sc, false)) {
                    let head = head0 + crate::mips::prologue(frame);
                    assert(all_code(crate::mips::prologue(frame)));
                    lemma_all_code_add(head0, crate::mips::prologue(frame));
                    lemma_code_only_of_code(head);
                    let tail = crate::mips::closing(body, frame);
                    assert(all_code(crate::mips::epilogue(frame)));
                    assert(all_code(tail));
                    three_pieces(head, bt, bf, tail);
                }
            }
        }
    }
}

} // verus!
