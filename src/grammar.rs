use vstd::prelude::*;
use crate::ast::{BinaryOperator, BuiltinFunctionType, DataStorageType, ExprV, ProgramV, StatementV, Type};
use crate::text::dec_seq;
use crate::token::{TokenV, kind_name};

verus! {

/// The state of a parse: the cursor, and how many `while`, `for` and `if` constructs have
/// been labelled so far.
pub struct PState {
    pub pos: int,
    pub nw: nat,
    pub nf: nat,
    pub ni: nat,
}

/// The outcome of parsing one construct: its value and the state after it, or the message of
/// the first failure.
pub type Parsed<A> = Result<(A, PState), Seq<char>>;

/// `Expected <what>, found <kind of the token found>`.
pub open spec fn found_message(expected: Seq<char>, found: TokenV) -> Seq<char> {
    "Expected "@ + expected + ", found "@ + kind_name(found)
}

/// The message of a parse that consumed nothing, which the grammar never produces.
pub open spec fn stalled() -> Seq<char> {
    "Parse made no progress"@
}

/// A token sequence that a parse can run over: it is ended by the end marker.
pub open spec fn tokens_wf(ts: Seq<TokenV>) -> bool {
    ts.len() > 0 && ts.last() == TokenV::Eof
}

/// The cursor moved forward and stays within the tokens. Every statement, argument and
/// parameter consumes at least one token, so this always holds where the grammar asks for
/// it; stating it keeps each recursive definition well founded.
pub open spec fn progressed(ts: Seq<TokenV>, a: PState, b: PState) -> bool {
    a.pos < b.pos < ts.len()
}

/// Moves past the current token; the last token is never left.
pub open spec fn adv(ts: Seq<TokenV>, st: PState) -> PState {
    if st.pos < ts.len() - 1 {
        PState { pos: st.pos + 1, ..st }
    } else {
        st
    }
}

/// Moves back one token, unless at the first.
pub open spec fn back(st: PState) -> PState {
    if st.pos > 0 {
        PState { pos: st.pos - 1, ..st }
    } else {
        st
    }
}

/// Whether the token `n` places after the cursor exists and is `k`.
pub open spec fn ahead_is(ts: Seq<TokenV>, st: PState, n: int, k: TokenV) -> bool {
    st.pos + n < ts.len() && ts[st.pos + n] == k
}

pub open spec fn sp_expect(ts: Seq<TokenV>, st: PState, k: TokenV) -> Result<PState, Seq<char>> {
    if ts[st.pos] == k {
        Ok(adv(ts, st))
    } else {
        Err(found_message(kind_name(k), ts[st.pos]))
    }
}

pub open spec fn type_of_token(t: TokenV) -> Option<Type> {
    match t {
        TokenV::Void => Some(Type::Void),
        TokenV::Int32 => Some(Type::Int32),
        TokenV::Bool => Some(Type::Bool),
        TokenV::String => Some(Type::String),
        _ => None,
    }
}

pub open spec fn sp_type(ts: Seq<TokenV>, st: PState) -> Parsed<Type> {
    match type_of_token(ts[st.pos]) {
        Some(t) => Ok((t, adv(ts, st))),
        None => Err(found_message("type"@, ts[st.pos])),
    }
}

pub open spec fn sp_ident(ts: Seq<TokenV>, st: PState) -> Parsed<Seq<char>> {
    match ts[st.pos] {
        TokenV::Identifier(name) => Ok((name, adv(ts, st))),
        _ => Err(found_message("identifier"@, ts[st.pos])),
    }
}

/// An optional leading `!`: the given sense, flipped when the `!` is there.
pub open spec fn sp_not(ts: Seq<TokenV>, st: PState, default_not: bool) -> (bool, PState) {
    if ts[st.pos] == TokenV::Not {
        (!default_not, adv(ts, st))
    } else {
        (default_not, st)
    }
}

/// An expression: a literal, a name, or a call (which takes its own `;`).
pub open spec fn sp_expression(ts: Seq<TokenV>, st: PState) -> Parsed<ExprV>
    decreases ts.len() - st.pos, 3int,
{
    match ts[st.pos] {
        TokenV::Integer(n) => Ok((ExprV::Integer(n), adv(ts, st))),
        TokenV::Identifier(name) => {
            if ahead_is(ts, st, 1, TokenV::LeftParen) {
                match sp_call(ts, st) {
                    Ok((args, s1)) => Ok(
                        (ExprV::FunctionCall { function_name: name, arguments: args }, s1),
                    ),
                    Err(m) => Err(m),
                }
            } else {
                Ok((ExprV::Identifier(name), adv(ts, st)))
            }
        },
        TokenV::StringLiteral(s) => Ok((ExprV::StringLiteral(s), adv(ts, st))),
        TokenV::BoolLiteral(b) => Ok((ExprV::BoolLiteral(b), adv(ts, st))),
        _ => Err(found_message("expression"@, ts[st.pos])),
    }
}

/// A call `name ( args ) ;`, the cursor on the name: its arguments.
pub open spec fn sp_call(ts: Seq<TokenV>, st: PState) -> Parsed<Seq<ExprV>>
    decreases ts.len() - st.pos, 2int,
{
    match sp_expect(ts, adv(ts, st), TokenV::LeftParen) {
        Ok(s1) => if progressed(ts, st, s1) {
            match sp_args(ts, s1) {
                Ok((args, s2)) => match sp_expect(ts, s2, TokenV::RightParen) {
                    Ok(s3) => match sp_expect(ts, s3, TokenV::Semicolon) {
                        Ok(s4) => Ok((args, s4)),
                        Err(m) => Err(m),
                    },
                    Err(m) => Err(m),
                },
                Err(m) => Err(m),
            }
        } else {
            Err(stalled())
        },
        Err(m) => Err(m),
    }
}

/// One or more expressions separated by commas.
pub open spec fn sp_args(ts: Seq<TokenV>, st: PState) -> Parsed<Seq<ExprV>>
    decreases ts.len() - st.pos, 4int,
{
    match sp_expression(ts, st) {
        Ok((e, s1)) => if ts[s1.pos] == TokenV::Comma {
            let s2 = adv(ts, s1);
            if progressed(ts, st, s2) {
                match sp_args(ts, s2) {
                    Ok((rest, s3)) => Ok((seq![e] + rest, s3)),
                    Err(m) => Err(m),
                }
            } else {
                Err(stalled())
            }
        } else {
            Ok((seq![e], s1))
        },
        Err(m) => Err(m),
    }
}

pub open spec fn empty_op() -> ExprV {
    ExprV::BinaryOp {
        left: Box::new(ExprV::Empty),
        operator: BinaryOperator::Empty,
        right: Box::new(ExprV::Empty),
        is_not: false,
    }
}

pub open spec fn compound_op(t: TokenV) -> BinaryOperator {
    match t {
        TokenV::Plus => BinaryOperator::Add,
        TokenV::Minus => BinaryOperator::Subtract,
        _ => BinaryOperator::Empty,
    }
}

/// `type name [= [!] expr [(+|-) expr]] ;`, where a call initializer has taken the `;`.
pub open spec fn sp_var_decl(ts: Seq<TokenV>, st: PState) -> Parsed<StatementV> {
    match sp_type(ts, st) {
        Ok((var_type, s1)) => match sp_ident(ts, s1) {
            Ok((identifier, s2)) => if ts[s2.pos] == TokenV::Equal {
                let (is_not, s3) = sp_not(ts, adv(ts, s2), false);
                match sp_expression(ts, s3) {
                    Ok((left, s4)) => {
                        let operator = compound_op(ts[s4.pos]);
                        let rhs = if operator != BinaryOperator::Empty {
                            sp_expression(ts, adv(ts, s4))
                        } else {
                            Ok((ExprV::Empty, s4))
                        };
                        match rhs {
                            Ok((right, s5)) => {
                                let decl = StatementV::VariableDeclaration {
                                    var_type,
                                    identifier,
                                    operation: ExprV::BinaryOp {
                                        left: Box::new(left),
                                        operator,
                                        right: Box::new(right),
                                        is_not,
                                    },
                                };
                                if left is FunctionCall {
                                    Ok((decl, s5))
                                } else {
                                    match sp_expect(ts, s5, TokenV::Semicolon) {
                                        Ok(s6) => Ok((decl, s6)),
                                        Err(m) => Err(m),
                                    }
                                }
                            },
                            Err(m) => Err(m),
                        }
                    },
                    Err(m) => Err(m),
                }
            } else {
                match sp_expect(ts, s2, TokenV::Semicolon) {
                    Ok(s3) => Ok(
                        (
                            StatementV::VariableDeclaration {
                                var_type,
                                identifier,
                                operation: empty_op(),
                            },
                            s3,
                        ),
                    ),
                    Err(m) => Err(m),
                }
            },
            Err(m) => Err(m),
        },
        Err(m) => Err(m),
    }
}

/// `return expr ;`
pub open spec fn sp_return(ts: Seq<TokenV>, st: PState) -> Parsed<StatementV> {
    match sp_expression(ts, adv(ts, st)) {
        Ok((value, s1)) => match sp_expect(ts, s1, TokenV::Semicolon) {
            Ok(s2) => Ok((StatementV::Return { value }, s2)),
            Err(m) => Err(m),
        },
        Err(m) => Err(m),
    }
}

/// `= [!] expr [(+|-) expr] ;` after the target expression, which must be a name.
pub open spec fn sp_assignment(ts: Seq<TokenV>, st: PState, target: ExprV) -> Parsed<StatementV> {
    let (is_not, s1) = sp_not(ts, adv(ts, st), false);
    match sp_expression(ts, s1) {
        Ok((left, s2)) => {
            let value = if ts[s2.pos] == TokenV::Plus || ts[s2.pos] == TokenV::Minus {
                match sp_expression(ts, adv(ts, s2)) {
                    Ok((right, s3)) => Ok(
                        (
                            ExprV::BinaryOp {
                                left: Box::new(left),
                                operator: compound_op(ts[s2.pos]),
                                right: Box::new(right),
                                is_not,
                            },
                            s3,
                        ),
                    ),
                    Err(m) => Err(m),
                }
            } else {
                Ok((left, s2))
            };
            match value {
                Ok((operation, s3)) => match sp_expect(ts, s3, TokenV::Semicolon) {
                    Ok(s4) => match target {
                        ExprV::Identifier(identifier) => Ok(
                            (StatementV::VariableAssignment { identifier, operation }, s4),
                        ),
                        _ => Err("Left side of assignment must be an identifier"@),
                    },
                    Err(m) => Err(m),
                },
                Err(m) => Err(m),
            }
        },
        Err(m) => Err(m),
    }
}

/// `name ++` or `name --`, the cursor on the operator: the name is read again.
pub open spec fn sp_unary(ts: Seq<TokenV>, st: PState) -> Parsed<StatementV> {
    match sp_expression(ts, back(st)) {
        Ok((target, s1)) => match target {
            ExprV::Identifier(identifier) => {
                let operation = if ts[s1.pos] == TokenV::PlusPlus {
                    ExprV::BinaryOp {
                        left: Box::new(target),
                        operator: BinaryOperator::Add,
                        right: Box::new(ExprV::Integer(1)),
                        is_not: false,
                    }
                } else if ts[s1.pos] == TokenV::MinusMinus {
                    ExprV::BinaryOp {
                        left: Box::new(target),
                        operator: BinaryOperator::Subtract,
                        right: Box::new(ExprV::Integer(1)),
                        is_not: false,
                    }
                } else {
                    ExprV::Empty
                };
                Ok((StatementV::VariableAssignment { identifier, operation }, adv(ts, s1)))
            },
            _ => Err("Left side of unary must be an identifier"@),
        },
        Err(m) => Err(m),
    }
}

/// An expression used as a statement: an assignment, an increment or decrement, or
/// `expr ;`.
pub open spec fn sp_expr_stmt(ts: Seq<TokenV>, st: PState) -> Parsed<StatementV> {
    match sp_expression(ts, st) {
        Ok((e, s1)) => if ts[s1.pos] == TokenV::Equal {
            sp_assignment(ts, s1, e)
        } else if ts[s1.pos] == TokenV::PlusPlus || ts[s1.pos] == TokenV::MinusMinus {
            sp_unary(ts, s1)
        } else {
            match sp_expect(ts, s1, TokenV::Semicolon) {
                Ok(s2) => Ok((StatementV::ExprStatement(e), s2)),
                Err(m) => Err(m),
            }
        },
        Err(m) => Err(m),
    }
}

pub open spec fn comparison_of(t: TokenV) -> Option<BinaryOperator> {
    match t {
        TokenV::LessThan => Some(BinaryOperator::LessThan),
        TokenV::GreaterThan => Some(BinaryOperator::GreaterThan),
        TokenV::LessThanEqual => Some(BinaryOperator::LessEqual),
        TokenV::GreaterThanEqual => Some(BinaryOperator::GreaterEqual),
        TokenV::EqualEqual => Some(BinaryOperator::Equal),
        TokenV::NotEqual => Some(BinaryOperator::NotEqual),
        _ => None,
    }
}

/// The condition inside the parentheses of `if`, `while` and `for`: `[!] expr [cmp expr]`.
/// With no comparison it is an equality against the empty expression.
pub open spec fn sp_conditional(ts: Seq<TokenV>, st: PState, default_not: bool) -> Parsed<ExprV> {
    let (is_not, s1) = sp_not(ts, st, default_not);
    match sp_expression(ts, s1) {
        Ok((left, s2)) => if ts[s2.pos] == TokenV::RightParen {
            Ok(
                (
                    ExprV::BinaryOp {
                        left: Box::new(left),
                        operator: BinaryOperator::Equal,
                        right: Box::new(ExprV::Empty),
                        is_not,
                    },
                    s2,
                ),
            )
        } else {
            match comparison_of(ts[s2.pos]) {
                Some(operator) => match sp_expression(ts, adv(ts, s2)) {
                    Ok((right, s3)) => Ok(
                        (
                            ExprV::BinaryOp {
                                left: Box::new(left),
                                operator,
                                right: Box::new(right),
                                is_not,
                            },
                            s3,
                        ),
                    ),
                    Err(m) => Err(m),
                },
                None => Err(found_message("comparison operator"@, ts[s2.pos])),
            }
        },
        Err(m) => Err(m),
    }
}

/// `iprint ( args ) ;` or `sprint ( args ) ;`
pub open spec fn sp_builtin(ts: Seq<TokenV>, st: PState) -> Parsed<StatementV> {
    let function_type = if ts[st.pos] == TokenV::IPrint {
        BuiltinFunctionType::IntegerPrint
    } else {
        BuiltinFunctionType::StringPrint
    };
    match sp_expect(ts, adv(ts, st), TokenV::LeftParen) {
        Ok(s1) => match sp_args(ts, s1) {
            Ok((arguments, s2)) => match sp_expect(ts, s2, TokenV::RightParen) {
                Ok(s3) => match sp_expect(ts, s3, TokenV::Semicolon) {
                    Ok(s4) => Ok((StatementV::BuiltinFunctionCall { function_type, arguments }, s4)),
                    Err(m) => Err(m),
                },
                Err(m) => Err(m),
            },
            Err(m) => Err(m),
        },
        Err(m) => Err(m),
    }
}

/// `type name` pairs separated by commas.
pub open spec fn sp_param_list(ts: Seq<TokenV>, st: PState) -> Parsed<Seq<(Seq<char>, Type)>>
    decreases ts.len() - st.pos,
{
    match sp_type(ts, st) {
        Ok((t, s1)) => match sp_ident(ts, s1) {
            Ok((name, s2)) => if ts[s2.pos] == TokenV::Comma {
                let s3 = adv(ts, s2);
                if progressed(ts, st, s3) {
                    match sp_param_list(ts, s3) {
                        Ok((rest, s4)) => Ok((seq![(name, t)] + rest, s4)),
                        Err(m) => Err(m),
                    }
                } else {
                    Err(stalled())
                }
            } else {
                Ok((seq![(name, t)], s2))
            },
            Err(m) => Err(m),
        },
        Err(m) => Err(m),
    }
}

/// A parameter list, possibly empty, up to the closing parenthesis.
pub open spec fn sp_params(ts: Seq<TokenV>, st: PState) -> Parsed<Seq<(Seq<char>, Type)>> {
    if ts[st.pos] == TokenV::RightParen {
        Ok((seq![], st))
    } else {
        sp_param_list(ts, st)
    }
}

pub open spec fn while_body_label(n: nat) -> Seq<char> {
    "while_"@ + dec_seq(n) + "_body"@
}

pub open spec fn while_end_label(n: nat) -> Seq<char> {
    "while_"@ + dec_seq(n) + "_end"@
}

pub open spec fn for_body_label(n: nat) -> Seq<char> {
    "for_"@ + dec_seq(n) + "_body"@
}

pub open spec fn for_end_label(n: nat) -> Seq<char> {
    "for_"@ + dec_seq(n) + "_end"@
}

pub open spec fn if_label(n: nat) -> Seq<char> {
    "if_"@ + dec_seq(n)
}

/// A block body ends with a `return` statement.
pub open spec fn ends_in_return(body: Seq<StatementV>) -> bool {
    body.len() > 0 && body.last() is Return
}

/// A statement, chosen by the current token and bounded lookahead.
pub open spec fn sp_statement(ts: Seq<TokenV>, st: PState) -> Parsed<StatementV>
    decreases ts.len() - st.pos, 3int,
{
    match ts[st.pos] {
        TokenV::Return => sp_return(ts, st),
        TokenV::If => sp_if(ts, st),
        TokenV::While => sp_while(ts, st),
        TokenV::For => sp_for(ts, st),
        TokenV::IPrint => sp_builtin(ts, st),
        TokenV::SPrint => sp_builtin(ts, st),
        TokenV::Int32 => sp_decl(ts, st),
        TokenV::String => sp_decl(ts, st),
        TokenV::Bool => sp_decl(ts, st),
        TokenV::Void => sp_decl(ts, st),
        TokenV::Identifier(name) => if ahead_is(ts, st, 1, TokenV::LeftParen) {
            match sp_call(ts, st) {
                Ok((arguments, s1)) => Ok(
                    (StatementV::FunctionCall { function_name: name, arguments }, s1),
                ),
                Err(m) => Err(m),
            }
        } else {
            sp_expr_stmt(ts, st)
        },
        _ => sp_expr_stmt(ts, st),
    }
}

/// After a type keyword: a function definition when `(` stands two tokens ahead, else a
/// variable declaration.
pub open spec fn sp_decl(ts: Seq<TokenV>, st: PState) -> Parsed<StatementV>
    decreases ts.len() - st.pos, 2int,
{
    if ahead_is(ts, st, 2, TokenV::LeftParen) {
        sp_function(ts, st)
    } else {
        sp_var_decl(ts, st)
    }
}

/// Statements up to a closing brace or the end marker.
pub open spec fn sp_block(ts: Seq<TokenV>, st: PState) -> Parsed<Seq<StatementV>>
    decreases ts.len() - st.pos, 4int,
{
    if ts[st.pos] == TokenV::RightBrace || ts[st.pos] == TokenV::Eof {
        Ok((seq![], st))
    } else {
        match sp_statement(ts, st) {
            Ok((s, s1)) => if progressed(ts, st, s1) {
                match sp_block(ts, s1) {
                    Ok((rest, s2)) => Ok((seq![s] + rest, s2)),
                    Err(m) => Err(m),
                }
            } else {
                Err(stalled())
            },
            Err(m) => Err(m),
        }
    }
}

/// `{ block }` from a state whose cursor is on the `{`.
pub open spec fn sp_braced(ts: Seq<TokenV>, st: PState, from: PState) -> Parsed<Seq<StatementV>>
    decreases ts.len() - from.pos, 0int,
{
    match sp_expect(ts, st, TokenV::LeftBrace) {
        Ok(s1) => if progressed(ts, from, s1) {
            match sp_block(ts, s1) {
                Ok((body, s2)) => match sp_expect(ts, s2, TokenV::RightBrace) {
                    Ok(s3) => Ok((body, s3)),
                    Err(m) => Err(m),
                },
                Err(m) => Err(m),
            }
        } else {
            Err(stalled())
        },
        Err(m) => Err(m),
    }
}

/// `while ( cond ) { block }`; labelled by the count of loops labelled before it.
pub open spec fn sp_while(ts: Seq<TokenV>, st: PState) -> Parsed<StatementV>
    decreases ts.len() - st.pos, 1int,
{
    match sp_expect(ts, adv(ts, st), TokenV::LeftParen) {
        Ok(s1) => match sp_conditional(ts, s1, false) {
            Ok((condition, s2)) => match sp_expect(ts, s2, TokenV::RightParen) {
                Ok(s3) => match sp_braced(ts, s3, st) {
                    Ok((body, s4)) => Ok(
                        (
                            StatementV::While {
                                body_label: while_body_label(s4.nw),
                                end_label: while_end_label(s4.nw),
                                condition,
                                body,
                            },
                            PState { nw: s4.nw + 1, ..s4 },
                        ),
                    ),
                    Err(m) => Err(m),
                },
                Err(m) => Err(m),
            },
            Err(m) => Err(m),
        },
        Err(m) => Err(m),
    }
}

/// `for ( decl cond ; change ) { block }`
pub open spec fn sp_for(ts: Seq<TokenV>, st: PState) -> Parsed<StatementV>
    decreases ts.len() - st.pos, 1int,
{
    match sp_expect(ts, adv(ts, st), TokenV::LeftParen) {
        Ok(s1) => match sp_var_decl(ts, s1) {
            Ok((init, s2)) => match sp_conditional(ts, s2, false) {
                Ok((condition, s3)) => match sp_expect(ts, s3, TokenV::Semicolon) {
                    Ok(s4) => match sp_expr_stmt(ts, s4) {
                        Ok((var_change, s5)) => match sp_expect(ts, s5, TokenV::RightParen) {
                            Ok(s6) => match sp_braced(ts, s6, st) {
                                Ok((body, s7)) => Ok(
                                    (
                                        StatementV::For {
                                            init: Box::new(init),
                                            body_label: for_body_label(s7.nf),
                                            end_label: for_end_label(s7.nf),
                                            condition,
                                            var_change: Box::new(var_change),
                                            body,
                                        },
                                        PState { nf: s7.nf + 1, ..s7 },
                                    ),
                                ),
                                Err(m) => Err(m),
                            },
                            Err(m) => Err(m),
                        },
                        Err(m) => Err(m),
                    },
                    Err(m) => Err(m),
                },
                Err(m) => Err(m),
            },
            Err(m) => Err(m),
        },
        Err(m) => Err(m),
    }
}

/// `if ( cond ) { block }`; the condition's sense starts negated.
pub open spec fn sp_if(ts: Seq<TokenV>, st: PState) -> Parsed<StatementV>
    decreases ts.len() - st.pos, 1int,
{
    match sp_expect(ts, adv(ts, st), TokenV::LeftParen) {
        Ok(s1) => match sp_conditional(ts, s1, true) {
            Ok((condition, s2)) => match sp_expect(ts, s2, TokenV::RightParen) {
                Ok(s3) => match sp_braced(ts, s3, st) {
                    Ok((body, s4)) => Ok(
                        (
                            StatementV::If { label: if_label(s4.ni), condition, body },
                            PState { ni: s4.ni + 1, ..s4 },
                        ),
                    ),
                    Err(m) => Err(m),
                },
                Err(m) => Err(m),
            },
            Err(m) => Err(m),
        },
        Err(m) => Err(m),
    }
}

/// The body of a function: a `void` function ends with a `return` of nothing.
pub open spec fn function_body(return_type: Type, body: Seq<StatementV>) -> Seq<StatementV> {
    if return_type == Type::Void && !ends_in_return(body) {
        body.push(StatementV::Return { value: ExprV::Empty })
    } else {
        body
    }
}

/// `type name ( params ) { block }`
pub open spec fn sp_function(ts: Seq<TokenV>, st: PState) -> Parsed<StatementV>
    decreases ts.len() - st.pos, 1int,
{
    match sp_type(ts, st) {
        Ok((return_type, s1)) => match sp_ident(ts, s1) {
            Ok((name, s2)) => match sp_expect(ts, s2, TokenV::LeftParen) {
                Ok(s3) => match sp_params(ts, s3) {
                    Ok((params, s4)) => match sp_expect(ts, s4, TokenV::RightParen) {
                        Ok(s5) => match sp_braced(ts, s5, st) {
                            Ok((body, s6)) => Ok(
                                (
                                    StatementV::Function {
                                        name,
                                        params,
                                        return_type,
                                        body: function_body(return_type, body),
                                        use_stack: true,
                                    },
                                    s6,
                                ),
                            ),
                            Err(m) => Err(m),
                        },
                        Err(m) => Err(m),
                    },
                    Err(m) => Err(m),
                },
                Err(m) => Err(m),
            },
            Err(m) => Err(m),
        },
        Err(m) => Err(m),
    }
}

/// Top-level statements up to the end marker.
pub open spec fn sp_program(ts: Seq<TokenV>, st: PState) -> Parsed<Seq<StatementV>>
    decreases ts.len() - st.pos,
{
    if ts[st.pos] == TokenV::Eof {
        Ok((seq![], st))
    } else {
        match sp_statement(ts, st) {
            Ok((s, s1)) => if progressed(ts, st, s1) {
                match sp_program(ts, s1) {
                    Ok((rest, s2)) => Ok((seq![s] + rest, s2)),
                    Err(m) => Err(m),
                }
            } else {
                Err(stalled())
            },
            Err(m) => Err(m),
        }
    }
}

/// The string literals among call arguments, in order.
pub open spec fn literal_strings(args: Seq<ExprV>) -> Seq<Seq<char>>
    decreases args.len(),
{
    if args.len() == 0 {
        seq![]
    } else {
        literal_strings(args.drop_last()) + match args.last() {
            ExprV::StringLiteral(v) => seq![v],
            _ => seq![],
        }
    }
}

/// The string literals that one statement places in the data segment, in source order: the
/// literal initializer of a string declaration, literal arguments of builtin calls, and
/// those inside loop and conditional bodies.
pub open spec fn stmt_strings(s: StatementV) -> Seq<Seq<char>>
    decreases s,
{
    match s {
        StatementV::VariableDeclaration { var_type, operation, .. } => if var_type == Type::String {
            match operation {
                ExprV::BinaryOp { left, .. } => match *left {
                    ExprV::StringLiteral(v) => seq![v],
                    _ => seq![],
                },
                _ => seq![],
            }
        } else {
            seq![]
        },
        StatementV::BuiltinFunctionCall { arguments, .. } => literal_strings(arguments),
        StatementV::While { body, .. } => body_strings(body),
        StatementV::If { body, .. } => body_strings(body),
        StatementV::For { body, .. } => body_strings(body),
        _ => seq![],
    }
}

/// The string literals of a statement list, in order.
pub open spec fn body_strings(ss: Seq<StatementV>) -> Seq<Seq<char>>
    decreases ss,
{
    if ss.len() == 0 {
        seq![]
    } else {
        body_strings(ss.drop_last()) + stmt_strings(ss.last())
    }
}

/// The string literals of the function bodies of a text segment, in order.
pub open spec fn text_strings(text: Seq<StatementV>) -> Seq<Seq<char>>
    decreases text.len(),
{
    if text.len() == 0 {
        seq![]
    } else {
        text_strings(text.drop_last()) + match text.last() {
            StatementV::Function { body, .. } => body_strings(body),
            _ => seq![],
        }
    }
}

/// Each distinct value of `s` once, in the order of its first occurrence.
pub open spec fn first_occurrences(s: Seq<Seq<char>>) -> Seq<Seq<char>>
    decreases s.len(),
{
    if s.len() == 0 {
        seq![]
    } else {
        let d = first_occurrences(s.drop_last());
        if d.contains(s.last()) {
            d
        } else {
            d.push(s.last())
        }
    }
}

pub open spec fn data_label(i: nat) -> Seq<char> {
    "str_"@ + dec_seq(i)
}

/// One `.asciiz` declaration per value, labelled by its index.
pub open spec fn data_segment(values: Seq<Seq<char>>) -> Seq<StatementV> {
    Seq::new(
        values.len(),
        |i: int|
            StatementV::DataDeclaration {
                label: data_label(i as nat),
                storage_type: DataStorageType::Asciiz,
                value: values[i],
            },
    )
}

/// The entry function: calls `main`, then exits.
pub open spec fn start_function() -> StatementV {
    StatementV::Function {
        name: "_start"@,
        params: seq![],
        return_type: Type::Void,
        body: seq![
            StatementV::Instruction { opcode: "jal"@, operands: seq!["main"@] },
            StatementV::Instruction { opcode: "li"@, operands: seq!["$v0, 10"@] },
            StatementV::Instruction { opcode: "syscall"@, operands: seq![] },
        ],
        use_stack: false,
    }
}

/// The program that the tokens parse to from state `st`: the entry function and the parsed
/// statements, and a data segment of their distinct string literals.
pub open spec fn sp_parse(ts: Seq<TokenV>, st: PState) -> Result<ProgramV, Seq<char>> {
    match sp_program(ts, st) {
        Ok((stmts, _)) => {
            let text = seq![start_function()] + stmts;
            Ok(ProgramV { data: data_segment(first_occurrences(text_strings(text))), text })
        },
        Err(m) => Err(m),
    }
}

/// The program that a whole token sequence parses to.
pub open spec fn parse_tokens(ts: Seq<TokenV>) -> Result<ProgramV, Seq<char>> {
    sp_parse(ts, PState { pos: 0, nw: 0, nf: 0, ni: 0 })
}

} // verus!
