use vstd::prelude::*;
use crate::ast::{ExprV, StatementV};
use crate::grammar::{
    for_body_label, for_end_label, if_label,
    PState, adv, ahead_is, back, data_label, first_occurrences, function_body,
    parse_tokens, progressed, sp_args, sp_block, sp_braced, sp_call,
    sp_conditional, sp_decl, sp_expect, sp_expr_stmt, sp_expression, sp_for, sp_function, sp_if,
    sp_not, sp_param_list, sp_params, sp_program, sp_statement, sp_type, sp_ident,
    sp_var_decl, sp_while, start_function, while_body_label, while_end_label,
};
use crate::token::TokenV;
use crate::text::{dec_seq, digit_char};

verus! {

proof fn lemma_dec_len(n: nat)
    ensures
        dec_seq(n).len() >= 1,
        n < 10 <==> dec_seq(n).len() == 1,
    decreases n,
{
    if n >= 10 {
        lemma_dec_len(n / 10);
    }
}

/// Distinct numbers have distinct decimal renderings.
pub proof fn lemma_dec_injective(a: nat, b: nat)
    requires
        dec_seq(a) == dec_seq(b),
    ensures
        a == b,
    decreases a,
{
    lemma_dec_len(a);
    lemma_dec_len(b);
    if a < 10 {
        assert(dec_seq(a)[0] == digit_char(a));
        assert(dec_seq(b)[0] == digit_char(b));
    } else {
        let da = dec_seq(a / 10);
        let db = dec_seq(b / 10);
        assert(dec_seq(a).drop_last() =~= da);
        assert(dec_seq(b).drop_last() =~= db);
        assert(dec_seq(a).last() == digit_char(a % 10));
        assert(dec_seq(b).last() == digit_char(b % 10));
        lemma_dec_injective(a / 10, b / 10);
        assert(a == 10 * (a / 10) + a % 10) by (nonlinear_arith);
        assert(b == 10 * (b / 10) + b % 10) by (nonlinear_arith);
    }
}

proof fn lemma_affix_injective(p: Seq<char>, m: Seq<char>, n: Seq<char>, q: Seq<char>)
    requires
        p + m + q == p + n + q,
    ensures
        m == n,
{
    let x = p + m + q;
    assert(x.len() == (p + n + q).len());
    assert(m.len() == n.len());
    assert(m =~= x.subrange(p.len() as int, (p.len() + m.len()) as int));
    assert(n =~= (p + n + q).subrange(p.len() as int, (p.len() + n.len()) as int));
}

/// Labels drawn from distinct counter values are distinct.
pub proof fn lemma_labels_injective(a: nat, b: nat)
    ensures
        while_body_label(a) == while_body_label(b) ==> a == b,
        while_end_label(a) == while_end_label(b) ==> a == b,
        data_label(a) == data_label(b) ==> a == b,
        for_body_label(a) == for_body_label(b) ==> a == b,
        for_end_label(a) == for_end_label(b) ==> a == b,
        if_label(a) == if_label(b) ==> a == b,
{
    if for_body_label(a) == for_body_label(b) {
        lemma_affix_injective("for_"@, dec_seq(a), dec_seq(b), "_body"@);
        lemma_dec_injective(a, b);
    }
    if for_end_label(a) == for_end_label(b) {
        lemma_affix_injective("for_"@, dec_seq(a), dec_seq(b), "_end"@);
        lemma_dec_injective(a, b);
    }
    if if_label(a) == if_label(b) {
        assert(("if_"@ + dec_seq(a)).subrange(("if_"@).len() as int, ("if_"@ + dec_seq(a)).len() as int)
            =~= dec_seq(a));
        assert(("if_"@ + dec_seq(b)).subrange(("if_"@).len() as int, ("if_"@ + dec_seq(b)).len() as int)
            =~= dec_seq(b));
        lemma_dec_injective(a, b);
    }
    if while_body_label(a) == while_body_label(b) {
        lemma_affix_injective("while_"@, dec_seq(a), dec_seq(b), "_body"@);
        lemma_dec_injective(a, b);
    }
    if while_end_label(a) == while_end_label(b) {
        lemma_affix_injective("while_"@, dec_seq(a), dec_seq(b), "_end"@);
        lemma_dec_injective(a, b);
    }
    if data_label(a) == data_label(b) {
        assert(("str_"@ + dec_seq(a)).subrange(("str_"@).len() as int, ("str_"@ + dec_seq(a)).len() as int)
            =~= dec_seq(a));
        assert(("str_"@ + dec_seq(b)).subrange(("str_"@).len() as int, ("str_"@ + dec_seq(b)).len() as int)
            =~= dec_seq(b));
        lemma_dec_injective(a, b);
    }
}


proof fn lemma_dec_last_digit(n: nat)
    ensures
        dec_seq(n).len() > 0,
        crate::text::is_digit(dec_seq(n).last()),
{
    lemma_dec_len(n);
    let d = if n < 10 { n } else { n % 10 };
    assert(dec_seq(n).last() == digit_char(d));
}

/// The first and the last character of a label, which tell its kind.
proof fn lemma_label_shape(kind: nat, n: nat)
    requires
        kind < 5,
    ensures
        kind_label(kind, n).len() > 0,
        kind_label(kind, n)[0] == (if kind <= 1 {
            'w'
        } else if kind <= 3 {
            'f'
        } else {
            'i'
        }),
        kind <= 3 ==> kind_label(kind, n).last() == (if kind % 2 == 0 {
            'y'
        } else {
            'd'
        }),
        kind == 4 ==> crate::text::is_digit(kind_label(kind, n).last()),
{
    reveal_strlit("while_");
    reveal_strlit("for_");
    reveal_strlit("if_");
    reveal_strlit("_body");
    reveal_strlit("_end");
    lemma_dec_last_digit(n);
    let d = dec_seq(n);
    if kind == 0 {
        assert(("while_"@ + d + "_body"@)[0] == 'w');
        assert(("while_"@ + d + "_body"@).last() == 'y');
    } else if kind == 1 {
        assert(("while_"@ + d + "_end"@)[0] == 'w');
        assert(("while_"@ + d + "_end"@).last() == 'd');
    } else if kind == 2 {
        assert(("for_"@ + d + "_body"@)[0] == 'f');
        assert(("for_"@ + d + "_body"@).last() == 'y');
    } else if kind == 3 {
        assert(("for_"@ + d + "_end"@)[0] == 'f');
        assert(("for_"@ + d + "_end"@).last() == 'd');
    } else {
        assert(("if_"@ + d)[0] == 'i');
        assert(("if_"@ + d).last() == d.last());
    }
}

/// Labels of different kinds, or of one kind drawn from different counter values, differ.
pub proof fn lemma_kind_labels_differ(k1: nat, a: nat, k2: nat, b: nat)
    requires
        k1 < 5,
        k2 < 5,
        k1 != k2 || a != b,
    ensures
        kind_label(k1, a) != kind_label(k2, b),
{
    if k1 == k2 {
        lemma_labels_injective(a, b);
    } else {
        lemma_label_shape(k1, a);
        lemma_label_shape(k2, b);
    }
}

/// The labels of one kind among statements, in the order in which their constructs close (an
/// inner construct before the one around it, siblings in source order). The kinds are, by
/// number: `while` body labels, `while` end labels, `for` body labels, `for` end labels, and
/// `if` labels (4 and above).
pub open spec fn kind_labels(ss: Seq<StatementV>, kind: nat) -> Seq<Seq<char>>
    decreases ss,
{
    if ss.len() == 0 {
        seq![]
    } else {
        kind_labels(ss.drop_last(), kind) + stmt_labels(ss.last(), kind)
    }
}

pub open spec fn stmt_labels(s: StatementV, kind: nat) -> Seq<Seq<char>>
    decreases s,
{
    match s {
        StatementV::While { body_label, end_label, body, .. } => kind_labels(body, kind) + if kind == 0 {
            seq![body_label]
        } else if kind == 1 {
            seq![end_label]
        } else {
            seq![]
        },
        StatementV::For { body_label, end_label, body, .. } => kind_labels(body, kind) + if kind == 2 {
            seq![body_label]
        } else if kind == 3 {
            seq![end_label]
        } else {
            seq![]
        },
        StatementV::If { label, body, .. } => kind_labels(body, kind) + if kind >= 4 {
            seq![label]
        } else {
            seq![]
        },
        StatementV::Function { body, .. } => kind_labels(body, kind),
        _ => seq![],
    }
}

/// The label of a kind drawn from counter value `n`.
pub open spec fn kind_label(kind: nat, n: nat) -> Seq<char> {
    if kind == 0 {
        while_body_label(n)
    } else if kind == 1 {
        while_end_label(n)
    } else if kind == 2 {
        for_body_label(n)
    } else if kind == 3 {
        for_end_label(n)
    } else {
        if_label(n)
    }
}

/// The counter that numbers labels of a kind.
pub open spec fn counter(st: PState, kind: nat) -> nat {
    if kind <= 1 {
        st.nw
    } else if kind <= 3 {
        st.nf
    } else {
        st.ni
    }
}

/// The labels of a kind numbered from `a` up to, not including, `b`.
pub open spec fn label_run(a: nat, b: nat, kind: nat) -> Seq<Seq<char>> {
    Seq::new((b - a) as nat, |k: int| kind_label(kind, (a + k) as nat))
}

pub open spec fn keeps_counts(a: PState, b: PState) -> bool {
    a.nw == b.nw && a.nf == b.nf && a.ni == b.ni
}

/// The statements moved the kind's counter from its value in `a` to its value in `b`, and hold
/// exactly the labels numbered in between.
pub open spec fn labelled_run(labels: Seq<Seq<char>>, a: PState, b: PState, kind: nat) -> bool {
    counter(a, kind) <= counter(b, kind) && labels == label_run(counter(a, kind), counter(b, kind), kind)
}

proof fn lemma_kind_labels_concat(x: Seq<StatementV>, y: Seq<StatementV>, kind: nat)
    ensures
        kind_labels(x + y, kind) == kind_labels(x, kind) + kind_labels(y, kind),
    decreases y.len(),
{
    if y.len() == 0 {
        assert(x + y =~= x);
        assert(kind_labels(x, kind) + seq![] =~= kind_labels(x, kind));
    } else {
        lemma_kind_labels_concat(x, y.drop_last(), kind);
        assert((x + y).drop_last() =~= x + y.drop_last());
        assert(kind_labels(x, kind) + kind_labels(y.drop_last(), kind) + stmt_labels(y.last(), kind)
            =~= kind_labels(x, kind) + kind_labels(y, kind));
    }
}

proof fn lemma_kind_labels_single(s: StatementV, kind: nat)
    ensures
        kind_labels(seq![s], kind) == stmt_labels(s, kind),
{
    assert(seq![s].drop_last() =~= Seq::<StatementV>::empty());
    assert(kind_labels(Seq::<StatementV>::empty(), kind) == Seq::<Seq<char>>::empty());
    assert(seq![s].last() == s);
    assert(Seq::<Seq<char>>::empty() + stmt_labels(s, kind) =~= stmt_labels(s, kind));
}

proof fn lemma_instructions_unlabelled(ss: Seq<StatementV>, kind: nat)
    requires
        forall|i: int| 0 <= i < ss.len() ==> (#[trigger] ss[i]) is Instruction,
    ensures
        kind_labels(ss, kind) == Seq::<Seq<char>>::empty(),
    decreases ss.len(),
{
    if ss.len() > 0 {
        let rest = ss.drop_last();
        assert forall|i: int| 0 <= i < rest.len() implies (#[trigger] rest[i]) is Instruction by {
            assert(rest[i] == ss[i]);
        }
        lemma_instructions_unlabelled(rest, kind);
        assert(ss[ss.len() - 1] is Instruction);
        assert(stmt_labels(ss.last(), kind) == Seq::<Seq<char>>::empty());
        assert(kind_labels(ss, kind) == kind_labels(rest, kind) + stmt_labels(ss.last(), kind));
        assert(kind_labels(ss, kind) =~= Seq::<Seq<char>>::empty());
    }
}

proof fn lemma_run_join(a: nat, b: nat, c: nat, kind: nat)
    requires
        a <= b <= c,
    ensures
        label_run(a, b, kind) + label_run(b, c, kind) == label_run(a, c, kind),
        label_run(a, b, kind) + seq![kind_label(kind, b)] == label_run(a, b + 1, kind),
        label_run(a, b, kind) + Seq::<Seq<char>>::empty() == label_run(a, b, kind),
        label_run(a, a, kind) == Seq::<Seq<char>>::empty(),
{
    assert(label_run(a, b, kind) + label_run(b, c, kind) =~= label_run(a, c, kind));
    assert(label_run(a, b, kind) + seq![kind_label(kind, b)] =~= label_run(a, b + 1, kind));
    assert(label_run(a, b, kind) + Seq::<Seq<char>>::empty() =~= label_run(a, b, kind));
    assert(label_run(a, a, kind) =~= Seq::<Seq<char>>::empty());
}

proof fn lemma_expression_counts(ts: Seq<TokenV>, st: PState)
    ensures
        sp_expression(ts, st) matches Ok((_, s1)) ==> keeps_counts(st, s1),
    decreases ts.len() - st.pos, 3int,
{
    if ts[st.pos] is Identifier && ahead_is(ts, st, 1, TokenV::LeftParen) {
        lemma_call_counts(ts, st);
    }
}

proof fn lemma_call_counts(ts: Seq<TokenV>, st: PState)
    ensures
        sp_call(ts, st) matches Ok((_, s1)) ==> keeps_counts(st, s1),
    decreases ts.len() - st.pos, 2int,
{
    if let Ok(s1) = sp_expect(ts, adv(ts, st), TokenV::LeftParen) {
        if progressed(ts, st, s1) {
            lemma_args_counts(ts, s1);
        }
    }
}

proof fn lemma_args_counts(ts: Seq<TokenV>, st: PState)
    ensures
        sp_args(ts, st) matches Ok((_, s1)) ==> keeps_counts(st, s1),
    decreases ts.len() - st.pos, 4int,
{
    lemma_expression_counts(ts, st);
    if let Ok((_, s1)) = sp_expression(ts, st) {
        let s2 = adv(ts, s1);
        if ts[s1.pos] == TokenV::Comma && progressed(ts, st, s2) {
            lemma_args_counts(ts, s2);
        }
    }
}

proof fn lemma_var_decl_counts(ts: Seq<TokenV>, st: PState)
    ensures
        sp_var_decl(ts, st) matches Ok((_, s1)) ==> keeps_counts(st, s1),
{
    if let Ok((_, s1)) = sp_type(ts, st) {
        if let Ok((_, s2)) = sp_ident(ts, s1) {
            let (_, s3) = sp_not(ts, adv(ts, s2), false);
            lemma_expression_counts(ts, s3);
            if let Ok((_, s4)) = sp_expression(ts, s3) {
                lemma_expression_counts(ts, adv(ts, s4));
            }
        }
    }
}

proof fn lemma_conditional_counts(ts: Seq<TokenV>, st: PState, default_not: bool)
    ensures
        sp_conditional(ts, st, default_not) matches Ok((_, s1)) ==> keeps_counts(st, s1),
{
    let (_, s1) = sp_not(ts, st, default_not);
    lemma_expression_counts(ts, s1);
    if let Ok((_, s2)) = sp_expression(ts, s1) {
        lemma_expression_counts(ts, adv(ts, s2));
    }
}

proof fn lemma_expr_stmt_counts(ts: Seq<TokenV>, st: PState)
    ensures
        sp_expr_stmt(ts, st) matches Ok((_, s1)) ==> keeps_counts(st, s1),
{
    lemma_expression_counts(ts, st);
    if let Ok((e, s1)) = sp_expression(ts, st) {
        let (_, s2) = sp_not(ts, adv(ts, s1), false);
        lemma_expression_counts(ts, s2);
        if let Ok((_, s3)) = sp_expression(ts, s2) {
            lemma_expression_counts(ts, adv(ts, s3));
        }
        lemma_expression_counts(ts, back(s1));
    }
}

proof fn lemma_param_list_counts(ts: Seq<TokenV>, st: PState)
    ensures
        sp_param_list(ts, st) matches Ok((_, s1)) ==> keeps_counts(st, s1),
    decreases ts.len() - st.pos,
{
    if let Ok((_, s1)) = sp_type(ts, st) {
        if let Ok((_, s2)) = sp_ident(ts, s1) {
            let s3 = adv(ts, s2);
            if ts[s2.pos] == TokenV::Comma && progressed(ts, st, s3) {
                lemma_param_list_counts(ts, s3);
            }
        }
    }
}

proof fn lemma_statement_labels(ts: Seq<TokenV>, st: PState, kind: nat)
    ensures
        sp_statement(ts, st) matches Ok((v, s1)) ==> labelled_run(stmt_labels(v, kind), st, s1, kind),
    decreases ts.len() - st.pos, 3int,
{
    lemma_run_join(counter(st, kind), counter(st, kind), counter(st, kind), kind);
    match ts[st.pos] {
        TokenV::Return => {
            lemma_expression_counts(ts, adv(ts, st));
        },
        TokenV::If => lemma_if_labels(ts, st, kind),
        TokenV::While => lemma_while_labels(ts, st, kind),
        TokenV::For => lemma_for_labels(ts, st, kind),
        TokenV::IPrint => {
            if let Ok(s1) = sp_expect(ts, adv(ts, st), TokenV::LeftParen) {
                lemma_args_counts(ts, s1);
            }
        },
        TokenV::SPrint => {
            if let Ok(s1) = sp_expect(ts, adv(ts, st), TokenV::LeftParen) {
                lemma_args_counts(ts, s1);
            }
        },
        TokenV::Int32 => lemma_decl_labels(ts, st, kind),
        TokenV::String => lemma_decl_labels(ts, st, kind),
        TokenV::Bool => lemma_decl_labels(ts, st, kind),
        TokenV::Void => lemma_decl_labels(ts, st, kind),
        TokenV::Identifier(_) => {
            lemma_call_counts(ts, st);
            lemma_expr_stmt_counts(ts, st);
        },
        _ => {
            lemma_expr_stmt_counts(ts, st);
        },
    }
}

proof fn lemma_decl_labels(ts: Seq<TokenV>, st: PState, kind: nat)
    ensures
        sp_decl(ts, st) matches Ok((v, s1)) ==> labelled_run(stmt_labels(v, kind), st, s1, kind),
    decreases ts.len() - st.pos, 2int,
{
    lemma_run_join(counter(st, kind), counter(st, kind), counter(st, kind), kind);
    if ahead_is(ts, st, 2, TokenV::LeftParen) {
        lemma_function_labels(ts, st, kind);
    } else {
        lemma_var_decl_counts(ts, st);
    }
}

proof fn lemma_block_labels(ts: Seq<TokenV>, st: PState, kind: nat)
    ensures
        sp_block(ts, st) matches Ok((v, s1)) ==> labelled_run(kind_labels(v, kind), st, s1, kind),
    decreases ts.len() - st.pos, 4int,
{
    lemma_run_join(counter(st, kind), counter(st, kind), counter(st, kind), kind);
    if !(ts[st.pos] == TokenV::RightBrace || ts[st.pos] == TokenV::Eof) {
        lemma_statement_labels(ts, st, kind);
        if let Ok((s, s1)) = sp_statement(ts, st) {
            if progressed(ts, st, s1) {
                lemma_block_labels(ts, s1, kind);
                if let Ok((rest, s2)) = sp_block(ts, s1) {
                    lemma_kind_labels_concat(seq![s], rest, kind);
                    lemma_kind_labels_single(s, kind);
                    lemma_run_join(counter(st, kind), counter(s1, kind), counter(s2, kind), kind);
                }
            }
        }
    }
}

proof fn lemma_braced_labels(ts: Seq<TokenV>, st: PState, from: PState, kind: nat)
    ensures
        sp_braced(ts, st, from) matches Ok((v, s1)) ==> labelled_run(kind_labels(v, kind), st, s1, kind),
    decreases ts.len() - from.pos, 0int,
{
    if let Ok(s1) = sp_expect(ts, st, TokenV::LeftBrace) {
        if progressed(ts, from, s1) {
            lemma_block_labels(ts, s1, kind);
        }
    }
}

proof fn lemma_while_labels(ts: Seq<TokenV>, st: PState, kind: nat)
    ensures
        sp_while(ts, st) matches Ok((v, s1)) ==> labelled_run(stmt_labels(v, kind), st, s1, kind),
    decreases ts.len() - st.pos, 1int,
{
    if let Ok(s1) = sp_expect(ts, adv(ts, st), TokenV::LeftParen) {
        lemma_conditional_counts(ts, s1, false);
        if let Ok((_, s2)) = sp_conditional(ts, s1, false) {
            if let Ok(s3) = sp_expect(ts, s2, TokenV::RightParen) {
                lemma_braced_labels(ts, s3, st, kind);
                if let Ok((_, s4)) = sp_braced(ts, s3, st) {
                    lemma_run_join(counter(st, kind), counter(s4, kind), counter(s4, kind), kind);
                }
            }
        }
    }
}

proof fn lemma_for_labels(ts: Seq<TokenV>, st: PState, kind: nat)
    ensures
        sp_for(ts, st) matches Ok((v, s1)) ==> labelled_run(stmt_labels(v, kind), st, s1, kind),
    decreases ts.len() - st.pos, 1int,
{
    if let Ok(s1) = sp_expect(ts, adv(ts, st), TokenV::LeftParen) {
        lemma_var_decl_counts(ts, s1);
        if let Ok((_, s2)) = sp_var_decl(ts, s1) {
            lemma_conditional_counts(ts, s2, false);
            if let Ok((_, s3)) = sp_conditional(ts, s2, false) {
                if let Ok(s4) = sp_expect(ts, s3, TokenV::Semicolon) {
                    lemma_expr_stmt_counts(ts, s4);
                    if let Ok((_, s5)) = sp_expr_stmt(ts, s4) {
                        if let Ok(s6) = sp_expect(ts, s5, TokenV::RightParen) {
                            lemma_braced_labels(ts, s6, st, kind);
                            if let Ok((_, s7)) = sp_braced(ts, s6, st) {
                                lemma_run_join(counter(st, kind), counter(s7, kind), counter(s7, kind), kind);
                            }
                        }
                    }
                }
            }
        }
    }
}

proof fn lemma_if_labels(ts: Seq<TokenV>, st: PState, kind: nat)
    ensures
        sp_if(ts, st) matches Ok((v, s1)) ==> labelled_run(stmt_labels(v, kind), st, s1, kind),
    decreases ts.len() - st.pos, 1int,
{
    if let Ok(s1) = sp_expect(ts, adv(ts, st), TokenV::LeftParen) {
        lemma_conditional_counts(ts, s1, true);
        if let Ok((_, s2)) = sp_conditional(ts, s1, true) {
            if let Ok(s3) = sp_expect(ts, s2, TokenV::RightParen) {
                lemma_braced_labels(ts, s3, st, kind);
                if let Ok((_, s4)) = sp_braced(ts, s3, st) {
                    lemma_run_join(counter(st, kind), counter(s4, kind), counter(s4, kind), kind);
                }
            }
        }
    }
}

proof fn lemma_function_labels(ts: Seq<TokenV>, st: PState, kind: nat)
    ensures
        sp_function(ts, st) matches Ok((v, s1)) ==> labelled_run(stmt_labels(v, kind), st, s1, kind),
    decreases ts.len() - st.pos, 1int,
{
    if let Ok((rt, s1)) = sp_type(ts, st) {
        if let Ok((_, s2)) = sp_ident(ts, s1) {
            if let Ok(s3) = sp_expect(ts, s2, TokenV::LeftParen) {
                if ts[s3.pos] != TokenV::RightParen {
                    lemma_param_list_counts(ts, s3);
                }
                if let Ok((_, s4)) = sp_params(ts, s3) {
                    if let Ok(s5) = sp_expect(ts, s4, TokenV::RightParen) {
                        lemma_braced_labels(ts, s5, st, kind);
                        if let Ok((body, _)) = sp_braced(ts, s5, st) {
                            let r = StatementV::Return { value: ExprV::Empty };
                            assert(body.push(r).drop_last() =~= body);
                            assert(kind_labels(body, kind) + stmt_labels(r, kind) =~= kind_labels(body, kind));
                            assert(kind_labels(function_body(rt, body), kind) == kind_labels(body, kind));
                        }
                    }
                }
            }
        }
    }
}

proof fn lemma_program_labels(ts: Seq<TokenV>, st: PState, kind: nat)
    ensures
        sp_program(ts, st) matches Ok((v, s1)) ==> labelled_run(kind_labels(v, kind), st, s1, kind),
    decreases ts.len() - st.pos,
{
    lemma_run_join(counter(st, kind), counter(st, kind), counter(st, kind), kind);
    if ts[st.pos] != TokenV::Eof {
        lemma_statement_labels(ts, st, kind);
        if let Ok((s, s1)) = sp_statement(ts, st) {
            if progressed(ts, st, s1) {
                lemma_program_labels(ts, s1, kind);
                if let Ok((rest, s2)) = sp_program(ts, s1) {
                    lemma_kind_labels_concat(seq![s], rest, kind);
                    lemma_kind_labels_single(s, kind);
                    lemma_run_join(counter(st, kind), counter(s1, kind), counter(s2, kind), kind);
                }
            }
        }
    }
}

/// Every loop and conditional of a parsed program has labels of its own. Taken in the order in
/// which the constructs close, the labels of each kind are numbered 0, 1, 2, ... across the
/// whole program (`while_0_body`, `while_1_body`, ...; `for_0_end`, ...; `if_0`, ...), and no
/// two labels of the program are equal, of the same kind or not.
pub proof fn lemma_labels_unique(ts: Seq<TokenV>)
    requires
        parse_tokens(ts) is Ok,
    ensures
        forall|kind: nat, i: int|
            kind < 5 && 0 <= i < kind_labels(parse_tokens(ts)->Ok_0.text, kind).len() ==> #[trigger] kind_labels(
                parse_tokens(ts)->Ok_0.text,
                kind,
            )[i] == kind_label(kind, i as nat),
        forall|k1: nat, i: int, k2: nat, j: int|
            k1 < 5 && k2 < 5 && 0 <= i < kind_labels(parse_tokens(ts)->Ok_0.text, k1).len() && 0 <= j
                < kind_labels(parse_tokens(ts)->Ok_0.text, k2).len() && (k1 != k2 || i != j) ==> #[trigger] kind_labels(
                parse_tokens(ts)->Ok_0.text,
                k1,
            )[i] != #[trigger] kind_labels(parse_tokens(ts)->Ok_0.text, k2)[j],
{
    let st = PState { pos: 0, nw: 0, nf: 0, ni: 0 };
    let (stmts, s1) = sp_program(ts, st)->Ok_0;
    let text = seq![start_function()] + stmts;
    assert(parse_tokens(ts)->Ok_0.text == text);
    assert forall|kind: nat| kind < 5 implies kind_labels(text, kind) == label_run(0, counter(s1, kind), kind) by {
        lemma_program_labels(ts, st, kind);
        lemma_kind_labels_concat(seq![start_function()], stmts, kind);
        lemma_kind_labels_single(start_function(), kind);
        if let StatementV::Function { body, .. } = start_function() {
            lemma_instructions_unlabelled(body, kind);
        }
        assert(kind_labels(text, kind) =~= kind_labels(stmts, kind));
    }
    assert forall|k1: nat, i: int, k2: nat, j: int|
        k1 < 5 && k2 < 5 && 0 <= i < kind_labels(text, k1).len() && 0 <= j < kind_labels(text, k2).len()
            && (k1 != k2 || i != j) implies #[trigger] kind_labels(text, k1)[i] != #[trigger] kind_labels(
        text,
        k2,
    )[j] by {
        lemma_kind_labels_differ(k1, i as nat, k2, j as nat);
    }
}

/// `x` occurs in `s` before position `b`.
pub open spec fn occurs_before(s: Seq<Seq<char>>, x: Seq<char>, b: int) -> bool {
    exists|a: int| 0 <= a < b && s[a] == x
}

/// The data segment holds each distinct literal exactly once, and no other value; a value
/// comes before another exactly when its first occurrence does.
pub proof fn lemma_first_occurrences(s: Seq<Seq<char>>)
    ensures
        first_occurrences(s).no_duplicates(),
        forall|x: Seq<char>| first_occurrences(s).contains(x) <==> s.contains(x),
        forall|i: int, j: int, b: int|
            #![trigger first_occurrences(s)[i], first_occurrences(s)[j], s[b]]
            0 <= i < j < first_occurrences(s).len() && 0 <= b < s.len() && s[b]
                == first_occurrences(s)[j] ==> occurs_before(s, first_occurrences(s)[i], b),
    decreases s.len(),
{
    if s.len() > 0 {
        let t = s.drop_last();
        let x = s.last();
        let d = first_occurrences(t);
        lemma_first_occurrences(t);
        assert forall|y: Seq<char>| s.contains(y) <==> (t.contains(y) || y == x) by {
            if s.contains(y) {
                let k = choose|k: int| 0 <= k < s.len() && s[k] == y;
                if k < t.len() {
                    assert(t[k] == y);
                }
            }
            if t.contains(y) {
                let k = choose|k: int| 0 <= k < t.len() && t[k] == y;
                assert(s[k] == y);
            }
            if y == x {
                assert(s[s.len() - 1] == y);
            }
        }
        let f = first_occurrences(s);
        if d.contains(x) {
            assert(f == d);
            assert forall|i: int, j: int, b: int|
                #![trigger f[i], f[j], s[b]]
                0 <= i < j < f.len() && 0 <= b < s.len() && s[b] == f[j] implies occurs_before(s, f[i], b) by {
                assert(d[i] == f[i] && d[j] == f[j]);
                if b < t.len() {
                    assert(t[b] == f[j]);
                    assert(occurs_before(t, d[i], b));
                    let a = choose|a: int| 0 <= a < b && t[a] == d[i];
                    assert(s[a] == f[i]);
                } else {
                    assert(d.contains(f[j]));
                    assert(t.contains(f[j]));
                    let b2 = choose|b2: int| 0 <= b2 < t.len() && t[b2] == f[j];
                    assert(t[b2] == d[j]);
                    assert(occurs_before(t, d[i], b2));
                    let a = choose|a: int| 0 <= a < b2 && t[a] == d[i];
                    assert(s[a] == f[i]);
                }
            }
        } else {
            assert(f == d.push(x));
            assert forall|y: Seq<char>| f.contains(y) <==> (d.contains(y) || y == x) by {
                if f.contains(y) {
                    let k = choose|k: int| 0 <= k < f.len() && f[k] == y;
                    if k < d.len() {
                        assert(d[k] == y);
                    }
                }
                if d.contains(y) {
                    let k = choose|k: int| 0 <= k < d.len() && d[k] == y;
                    assert(f[k] == y);
                }
                if y == x {
                    assert(f[d.len() as int] == y);
                }
            }
            assert forall|i: int, j: int|
                0 <= i < f.len() && 0 <= j < f.len() && i != j implies f[i] != f[j] by {
                if i < d.len() && j < d.len() {
                    assert(f[i] == d[i] && f[j] == d[j]);
                } else if i < d.len() {
                    assert(d.contains(f[i]));
                } else {
                    assert(d.contains(f[j]));
                }
            }
            assert forall|i: int, j: int, b: int|
                #![trigger f[i], f[j], s[b]]
                0 <= i < j < f.len() && 0 <= b < s.len() && s[b] == f[j] implies occurs_before(s, f[i], b) by {
                assert(f[i] == d[i]);
                if j < d.len() {
                    assert(f[j] == d[j]);
                    if b < t.len() {
                        assert(t[b] == d[j]);
                        assert(occurs_before(t, d[i], b));
                    let a = choose|a: int| 0 <= a < b && t[a] == d[i];
                        assert(s[a] == f[i]);
                    } else {
                        assert(d.contains(x));
                    }
                } else {
                    assert(d.contains(f[i]));
                    assert(t.contains(f[i]));
                    let a = choose|a: int| 0 <= a < t.len() && t[a] == f[i];
                    assert(s[a] == f[i]);
                    if b < t.len() {
                        assert(t[b] == x);
                        assert(t.contains(x));
                    }
                }
            }
        }
    } else {
        assert(first_occurrences(s).len() == 0);
    }
}

} // verus!
